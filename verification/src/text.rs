//! Character-level helpers on znode paths and names.
use vstd::prelude::*;

verus! {

/// The root path, `/`.
pub open spec fn root_path() -> Seq<char> {
    seq!['/']
}

/// Is `s` the root path?
pub fn is_root(s: &str) -> (b: bool)
    ensures
        b == (s@ == root_path()),
{
    let n = s.unicode_len();
    if n == 1 && s.get_char(0) == '/' {
        assert(s@ =~= root_path());
        true
    } else {
        false
    }
}

/// The characters of `s`, one by one.
pub fn chars_of(s: &str) -> (r: Vec<char>)
    ensures
        r@ == s@,
{
    let n = s.unicode_len();
    let mut r: Vec<char> = Vec::new();
    let mut i: usize = 0;
    while i < n
        invariant
            n == s@.len(),
            i <= n,
            r@ == s@.take(i as int),
        decreases n - i,
    {
        let c = s.get_char(i);
        r.push(c);
        i = i + 1;
        assert(r@ =~= s@.take(i as int));
    }
    assert(r@ =~= s@);
    r
}

/// The string made of the characters `s[from..to]`.
pub fn substring(s: &str, from: usize, to: usize) -> (r: String)
    requires
        from <= to <= s@.len(),
    ensures
        r@ == s@.subrange(from as int, to as int),
{
    s.substring_char(from, to).to_owned()
}

/// Path of the child `name` of `parent`: `/name` under the root, else
/// `parent/name`.
pub open spec fn child_path_spec(parent: Seq<char>, name: Seq<char>) -> Seq<char> {
    if parent == root_path() {
        root_path() + name
    } else {
        parent + seq!['/'] + name
    }
}

/// Path of the child `name` of `parent`.
pub fn child_path(parent: &str, name: &str) -> (r: String)
    ensures
        r@ == child_path_spec(parent@, name@),
{
    proof {
        reveal_strlit("/");
    }
    let mut s = "/".to_owned();
    if is_root(parent) {
        s.append(name);
        assert(s@ =~= child_path_spec(parent@, name@));
        s
    } else {
        let mut t = parent.to_owned();
        t.append("/");
        t.append(name);
        assert(t@ =~= child_path_spec(parent@, name@));
        t
    }
}

/// Index of the last `/` in `s`, or -1 where there is none.
pub open spec fn last_slash(s: Seq<char>) -> int
    decreases s.len(),
{
    if s.len() == 0 {
        -1
    } else if s.last() == '/' {
        s.len() - 1
    } else {
        last_slash(s.drop_last())
    }
}

/// Where the last `/` stands, it stands at that index, and none follows it.
pub proof fn lemma_last_slash(s: Seq<char>)
    ensures
        -1 <= last_slash(s) < s.len(),
        last_slash(s) >= 0 ==> s[last_slash(s)] == '/',
        forall|k: int| last_slash(s) < k < s.len() ==> s[k] != '/',
    decreases s.len(),
{
    if s.len() > 0 && s.last() != '/' {
        let t = s.drop_last();
        lemma_last_slash(t);
        assert forall|k: int| last_slash(s) < k < s.len() implies s[k] != '/' by {
            if k < s.len() - 1 {
                assert(s[k] == t[k]);
            }
        }
    }
}

/// The part of `s` after its last `/` (all of `s` where it holds none).
pub open spec fn last_segment(s: Seq<char>) -> Seq<char> {
    s.subrange(last_slash(s) + 1, s.len() as int)
}

/// The part of `s` before its last `/`, where it holds one.
pub open spec fn before_last_slash(s: Seq<char>) -> Option<Seq<char>> {
    if last_slash(s) >= 0 {
        Some(s.subrange(0, last_slash(s)))
    } else {
        None
    }
}

/// Finds the last `/` in `s`.
pub fn find_last_slash(s: &str) -> (r: Option<usize>)
    ensures
        match r {
            Some(i) => i == last_slash(s@),
            None => last_slash(s@) == -1,
        },
{
    let n = s.unicode_len();
    let mut j: usize = n;
    while j > 0
        invariant
            n == s@.len(),
            j <= n,
            forall|k: int| j <= k < n ==> s@[k] != '/',
        decreases j,
    {
        if s.get_char(j - 1) == '/' {
            proof {
                lemma_last_slash_at(s@, j - 1);
            }
            return Some(j - 1);
        }
        j = j - 1;
    }
    proof {
        lemma_no_slash(s@);
    }
    None
}

proof fn lemma_last_slash_at(s: Seq<char>, i: int)
    requires
        0 <= i < s.len(),
        s[i] == '/',
        forall|k: int| i < k < s.len() ==> s[k] != '/',
    ensures
        last_slash(s) == i,
    decreases s.len(),
{
    if s.last() != '/' {
        assert(i < s.len() - 1);
        lemma_last_slash_at(s.drop_last(), i);
    }
}

proof fn lemma_no_slash(s: Seq<char>)
    requires
        forall|k: int| 0 <= k < s.len() ==> s[k] != '/',
    ensures
        last_slash(s) == -1,
    decreases s.len(),
{
    if s.len() > 0 {
        lemma_no_slash(s.drop_last());
    }
}

/// The name of the last component of a path: what follows its last `/`.
pub fn last_segment_of(s: &str) -> (r: String)
    ensures
        r@ == last_segment(s@),
{
    let n = s.unicode_len();
    proof {
        lemma_last_slash(s@);
    }
    match find_last_slash(s) {
        Some(i) => substring(s, i + 1, n),
        None => substring(s, 0, n),
    }
}

/// The part of a path before its last `/`, where it holds one.
pub fn before_last_slash_of(s: &str) -> (r: Option<String>)
    ensures
        match r {
            Some(p) => before_last_slash(s@) == Some(p@),
            None => before_last_slash(s@) is None,
        },
{
    proof {
        lemma_last_slash(s@);
    }
    match find_last_slash(s) {
        Some(i) => Some(substring(s, 0, i)),
        None => None,
    }
}

/// The parent of a path as the tree knows it: what precedes the last `/`,
/// and the root where that is empty or there is no `/`.
pub open spec fn parent_path_spec(s: Seq<char>) -> Seq<char> {
    match before_last_slash(s) {
        Some(p) => if p.len() == 0 {
            root_path()
        } else {
            p
        },
        None => root_path(),
    }
}

/// The parent of a path.
pub fn parent_path(s: &str) -> (r: String)
    ensures
        r@ == parent_path_spec(s@),
{
    proof {
        reveal_strlit("/");
    }
    match before_last_slash_of(s) {
        Some(p) => {
            if p.as_str().unicode_len() == 0 {
                "/".to_owned()
            } else {
                p
            }
        },
        None => "/".to_owned(),
    }
}

/// A path whose components are names without `/`, under `/`: the paths
/// that the tree holds.
pub open spec fn is_name(name: Seq<char>) -> bool {
    forall|k: int| 0 <= k < name.len() ==> name[k] != '/'
}

/// The name of a child is the last segment of its path, and its parent
/// path is what precedes that segment.
pub proof fn lemma_child_path_parts(parent: Seq<char>, name: Seq<char>)
    requires
        is_name(name),
    ensures
        last_segment(child_path_spec(parent, name)) == name,
        before_last_slash(child_path_spec(parent, name)) == Some(
            if parent == root_path() {
                Seq::<char>::empty()
            } else {
                parent
            },
        ),
{
    let p = child_path_spec(parent, name);
    let i = p.len() - name.len() - 1;
    assert(p[i] == '/');
    assert forall|k: int| i < k < p.len() implies p[k] != '/' by {
        assert(p[k] == name[k - i - 1]);
    }
    lemma_last_slash_at(p, i);
    assert(last_segment(p) =~= name);
    if parent == root_path() {
        assert(p.subrange(0, i) =~= Seq::<char>::empty());
    } else {
        assert(p.subrange(0, i) =~= parent);
    }
}

/// A path goes back to its parent: the parent of the child `name` of a
/// non-empty `parent` is `parent`.
pub proof fn lemma_parent_of_child(parent: Seq<char>, name: Seq<char>)
    requires
        is_name(name),
        parent.len() > 0,
    ensures
        parent_path_spec(child_path_spec(parent, name)) == parent,
{
    lemma_child_path_parts(parent, name);
}

/// `s` without its leading `/` characters.
pub open spec fn trim_leading_slashes(s: Seq<char>) -> Seq<char>
    decreases s.len(),
{
    if s.len() > 0 && s[0] == '/' {
        trim_leading_slashes(s.drop_first())
    } else {
        s
    }
}

/// The pieces of `s` between its `/` characters, in order, empty pieces
/// included (a string without `/` is one piece).
pub open spec fn split_slashes(s: Seq<char>) -> Seq<Seq<char>>
    decreases s.len(),
{
    if s.len() == 0 {
        seq![Seq::<char>::empty()]
    } else if s.last() == '/' {
        split_slashes(s.drop_last()).push(Seq::<char>::empty())
    } else {
        let r = split_slashes(s.drop_last());
        r.update(r.len() - 1, r.last().push(s.last()))
    }
}

/// There is always at least one piece.
pub proof fn lemma_split_nonempty(s: Seq<char>)
    ensures
        split_slashes(s).len() >= 1,
    decreases s.len(),
{
    if s.len() > 0 {
        lemma_split_nonempty(s.drop_last());
    }
}

proof fn lemma_trim_leading_at(s: Seq<char>, k: int)
    requires
        0 <= k <= s.len(),
        forall|j: int| 0 <= j < k ==> s[j] == '/',
        k == s.len() || s[k] != '/',
    ensures
        trim_leading_slashes(s) == s.subrange(k, s.len() as int),
    decreases k,
{
    if k == 0 {
        assert(s.subrange(0, s.len() as int) =~= s);
    } else {
        let t = s.drop_first();
        assert forall|j: int| 0 <= j < k - 1 implies t[j] == '/' by {
            assert(t[j] == s[j + 1]);
        }
        lemma_trim_leading_at(t, k - 1);
        assert(t.subrange(k - 1, t.len() as int) =~= s.subrange(k, s.len() as int));
    }
}

/// The components that a path names: the pieces between its `/`
/// characters, once the leading ones are dropped.
pub open spec fn path_components(path: Seq<char>) -> Seq<Seq<char>> {
    split_slashes(trim_leading_slashes(path))
}

/// Splits a path into its components.
pub fn components_of(path: &str) -> (r: Vec<String>)
    ensures
        r@.len() >= 1,
        r@.len() == path_components(path@).len(),
        forall|i: int| 0 <= i < r@.len() ==> #[trigger] r@[i]@ == path_components(path@)[i],
{
    let n = path.unicode_len();
    let mut k: usize = 0;
    while k < n && path.get_char(k) == '/'
        invariant
            n == path@.len(),
            k <= n,
            forall|j: int| 0 <= j < k ==> path@[j] == '/',
        decreases n - k,
    {
        k = k + 1;
    }
    proof {
        lemma_trim_leading_at(path@, k as int);
    }
    let ghost t = path@.subrange(k as int, n as int);
    let mut r: Vec<String> = Vec::new();
    let mut start: usize = k;
    let mut i: usize = k;
    while i < n
        invariant
            n == path@.len(),
            k <= start <= i <= n,
            t == path@.subrange(k as int, n as int),
            r@.len() + 1 == split_slashes(t.take(i - k)).len(),
            forall|j: int| 0 <= j < r@.len() ==> #[trigger] r@[j]@ == split_slashes(t.take(i - k))[j],
            split_slashes(t.take(i - k)).last() == path@.subrange(start as int, i as int),
        decreases n - i,
    {
        let ghost before = split_slashes(t.take(i - k));
        assert(t.take(i + 1 - k).drop_last() =~= t.take(i - k));
        assert(t.take(i + 1 - k).last() == path@[i as int]);
        if path.get_char(i) == '/' {
            let piece = substring(path, start, i);
            r.push(piece);
            start = i + 1;
            assert(path@.subrange(start as int, (i + 1) as int) =~= Seq::<char>::empty());
        } else {
            assert(path@.subrange(start as int, (i + 1) as int) =~= path@.subrange(
                start as int,
                i as int,
            ).push(path@[i as int]));
        }
        i = i + 1;
    }
    let last = substring(path, start, n);
    r.push(last);
    assert(t.take(n - k) =~= t);
    proof {
        lemma_split_nonempty(t);
    }
    r
}

/// What `String::from_utf8_lossy` makes of a byte string.
pub uninterp spec fn utf8_lossy(bytes: Seq<u8>) -> Seq<char>;

/// Calls `String::from_utf8_lossy`, which decodes UTF-8 and puts U+FFFD in
/// place of each invalid sequence. Its result depends on the bytes alone
/// and is named `utf8_lossy`; only the documented case of valid UTF-8, which
/// decodes unchanged, is stated.
#[verifier::external_body]
pub(crate) fn decode_lossy(bytes: &Vec<u8>) -> (r: String)
    ensures
        r@ == utf8_lossy(bytes@),
        vstd::utf8::valid_utf8(bytes@) ==> r@ == vstd::utf8::decode_utf8(bytes@),
{
    String::from_utf8_lossy(bytes.as_slice()).to_string()
}

/// The UTF-8 bytes of a string.
pub fn utf8_bytes(s: &String) -> (r: Vec<u8>)
    ensures
        r@ == vstd::utf8::encode_utf8(s@),
{
    s.as_str().as_bytes_vec()
}

/// After the leading `/` characters are dropped, none is left in front.
pub proof fn lemma_trim_leading(s: Seq<char>)
    ensures
        trim_leading_slashes(s).len() > 0 ==> trim_leading_slashes(s)[0] != '/',
        trim_leading_slashes(s).len() <= s.len(),
    decreases s.len(),
{
    if s.len() > 0 && s[0] == '/' {
        lemma_trim_leading(s.drop_first());
    }
}

/// A string that does not begin with `/` has a non-empty first piece;
/// the empty string has a single, empty, piece.
pub proof fn lemma_split_first(s: Seq<char>)
    ensures
        s.len() == 0 ==> split_slashes(s).len() == 1,
        s.len() > 0 && s[0] != '/' ==> split_slashes(s)[0].len() > 0,
        split_slashes(s).len() >= 1,
    decreases s.len(),
{
    lemma_split_nonempty(s);
    if s.len() > 0 {
        let t = s.drop_last();
        lemma_split_first(t);
        lemma_split_nonempty(t);
        if t.len() > 0 {
            assert(t[0] == s[0]);
        }
    }
}

/// The components of a path: there is always one at least, and where
/// there are several the first is not empty.
pub proof fn lemma_components_first(path: Seq<char>)
    ensures
        path_components(path).len() >= 1,
        path_components(path).len() >= 2 ==> path_components(path)[0].len() > 0,
{
    let t = trim_leading_slashes(path);
    lemma_trim_leading(path);
    lemma_split_first(t);
}

/// The names joined by `/` (for at least one name).
pub open spec fn join_names(names: Seq<Seq<char>>) -> Seq<char>
    decreases names.len(),
{
    if names.len() <= 1 {
        if names.len() == 1 {
            names[0]
        } else {
            Seq::empty()
        }
    } else {
        join_names(names.drop_last()) + seq!['/'] + names.last()
    }
}

proof fn lemma_split_concat(x: Seq<char>, y: Seq<char>)
    ensures
        split_slashes(x + seq!['/'] + y) == split_slashes(x) + split_slashes(y),
    decreases y.len(),
{
    lemma_split_nonempty(x);
    if y.len() == 0 {
        assert(x + seq!['/'] + y =~= x.push('/'));
        assert((x.push('/')).drop_last() =~= x);
        assert(split_slashes(x) + split_slashes(y) =~= split_slashes(x).push(Seq::<char>::empty()));
    } else {
        let z = x + seq!['/'] + y;
        let y1 = y.drop_last();
        assert(z.drop_last() =~= x + seq!['/'] + y1);
        assert(z.last() == y.last());
        lemma_split_concat(x, y1);
        lemma_split_nonempty(y1);
        let a = split_slashes(x);
        let b = split_slashes(y1);
        if y.last() == '/' {
            assert(split_slashes(z) =~= (a + b).push(Seq::<char>::empty()));
            assert(split_slashes(y) =~= b.push(Seq::<char>::empty()));
            assert((a + b).push(Seq::<char>::empty()) =~= a + b.push(Seq::<char>::empty()));
        } else {
            let ab = a + b;
            assert(ab.last() == b.last());
            assert(split_slashes(z) =~= ab.update(ab.len() - 1, ab.last().push(y.last())));
            assert(split_slashes(y) =~= b.update(b.len() - 1, b.last().push(y.last())));
            assert(ab.update(ab.len() - 1, ab.last().push(y.last())) =~= a + b.update(
                b.len() - 1,
                b.last().push(y.last()),
            ));
        }
    }
}

proof fn lemma_split_name(name: Seq<char>)
    requires
        is_name(name),
    ensures
        split_slashes(name) == seq![name],
    decreases name.len(),
{
    if name.len() > 0 {
        let t = name.drop_last();
        assert(is_name(t)) by {
            assert forall|k: int| 0 <= k < t.len() implies t[k] != '/' by {
                assert(t[k] == name[k]);
            }
        }
        lemma_split_name(t);
        assert(name.last() != '/');
        assert(t.push(name.last()) =~= name);
        assert(seq![t].update(0, t.push(name.last())) =~= seq![name]);
    } else {
        assert(name =~= Seq::<char>::empty());
    }
}

/// Splitting names joined by `/` gives the names back.
pub proof fn lemma_split_join(names: Seq<Seq<char>>)
    requires
        names.len() >= 1,
        forall|i: int| 0 <= i < names.len() ==> is_name(#[trigger] names[i]),
    ensures
        split_slashes(join_names(names)) == names,
    decreases names.len(),
{
    if names.len() == 1 {
        lemma_split_name(names[0]);
        assert(seq![names[0]] =~= names);
    } else {
        let front = names.drop_last();
        lemma_split_join(front);
        lemma_split_concat(join_names(front), names.last());
        lemma_split_name(names.last());
        assert(front + seq![names.last()] =~= names);
    }
}

/// The components of `/` followed by names joined by `/` are those names,
/// where each name is non-empty and holds no `/`.
pub proof fn lemma_components_of_joined(names: Seq<Seq<char>>)
    requires
        names.len() >= 1,
        forall|i: int| 0 <= i < names.len() ==> is_name(#[trigger] names[i]) && names[i].len()
            > 0,
    ensures
        path_components(root_path() + join_names(names)) == names,
{
    let j = join_names(names);
    lemma_join_first(names);
    let p = root_path() + j;
    assert(p.drop_first() =~= j);
    assert(trim_leading_slashes(j) == j);
    assert(trim_leading_slashes(p) == trim_leading_slashes(p.drop_first()));
    lemma_split_join(names);
}

proof fn lemma_join_first(names: Seq<Seq<char>>)
    requires
        names.len() >= 1,
        forall|i: int| 0 <= i < names.len() ==> is_name(#[trigger] names[i]) && names[i].len()
            > 0,
    ensures
        join_names(names).len() > 0,
        join_names(names)[0] == names[0][0],
    decreases names.len(),
{
    if names.len() > 1 {
        let front = names.drop_last();
        assert forall|i: int| 0 <= i < front.len() implies is_name(#[trigger] front[i])
            && front[i].len() > 0 by {
            assert(front[i] == names[i]);
        }
        lemma_join_first(front);
    }
    assert(names[0][0] != '/');
}

} // verus!
