//! Matching of znode paths against a search query.
use vstd::prelude::*;
use crate::text::{chars_of, last_segment, last_segment_of};

verus! {

/// What `str::to_lowercase` makes of a string.
pub uninterp spec fn lowercase(s: Seq<char>) -> Seq<char>;

/// Calls `str::to_lowercase`, which maps each character to its Unicode
/// lowercase form. Its result depends on the characters of `s` alone; it is
/// named `lowercase` and not spelled out here.
#[verifier::external_body]
pub(crate) fn to_lowercase(s: &str) -> (r: String)
    ensures
        r@ == lowercase(s@),
{
    s.to_lowercase()
}

/// Whether `char::is_whitespace` holds of a character.
pub uninterp spec fn is_white(c: char) -> bool;

/// Calls `char::is_whitespace`, which tells whether a character has the
/// Unicode `White_Space` property; the property is named `is_white`.
#[verifier::external_body]
fn char_is_whitespace(c: char) -> (b: bool)
    ensures
        b == is_white(c),
{
    c.is_whitespace()
}

/// `q` occurs in `s` at index `i`.
pub open spec fn occurs_at(s: Seq<char>, q: Seq<char>, i: int) -> bool {
    0 <= i && i + q.len() <= s.len() && s.subrange(i, i + q.len()) == q
}

/// `q` occurs somewhere in `s` (the empty string occurs in every string).
pub open spec fn occurs_in(s: Seq<char>, q: Seq<char>) -> bool {
    exists|i: int| occurs_at(s, q, i)
}

/// A string occurs in any string that holds it between some prefix and
/// some suffix, the empty ones included: at the start, at the end, or as
/// the whole string.
pub proof fn lemma_occurs_between(a: Seq<char>, q: Seq<char>, b: Seq<char>)
    ensures
        occurs_in(a + q + b, q),
        occurs_in(q + b, q),
        occurs_in(a + q, q),
        occurs_in(q, q),
{
    let s = a + q + b;
    assert(s.subrange(a.len() as int, (a.len() + q.len()) as int) =~= q);
    assert(occurs_at(s, q, a.len() as int));
    let t = q + b;
    assert(t.subrange(0, q.len() as int) =~= q);
    assert(occurs_at(t, q, 0));
    let u = a + q;
    assert(u.subrange(a.len() as int, (a.len() + q.len()) as int) =~= q);
    assert(occurs_at(u, q, a.len() as int));
    assert(q.subrange(0, q.len() as int) =~= q);
    assert(occurs_at(q, q, 0));
}

/// `q` occurs in `s` exactly where `s` is some `a`, then `q`, then some
/// `b`.
pub proof fn lemma_occurs_iff_split(s: Seq<char>, q: Seq<char>)
    ensures
        occurs_in(s, q) <==> exists|a: Seq<char>, b: Seq<char>| s == a + q + b,
{
    if occurs_in(s, q) {
        let i = choose|i: int| occurs_at(s, q, i);
        let a = s.subrange(0, i);
        let b = s.subrange(i + q.len(), s.len() as int);
        assert(s =~= a + q + b);
    }
    if exists|a: Seq<char>, b: Seq<char>| s == a + q + b {
        let (a, b) = choose|a: Seq<char>, b: Seq<char>| s == a + q + b;
        lemma_occurs_between(a, q, b);
    }
}

/// A path matches a query wherever its lower-case text holds the query
/// anywhere: the whole path, a leading part of it or a part further in.
pub proof fn lemma_path_holding_query_matches(path: Seq<char>, a: Seq<char>, query: Seq<char>, b: Seq<char>)
    requires
        lowercase(path) == a + query + b,
    ensures
        path_matches(path, query),
{
    lemma_occurs_between(a, query, b);
}

fn occurs_at_exec(s: &Vec<char>, q: &Vec<char>, i: usize) -> (b: bool)
    requires
        i + q@.len() <= s@.len(),
    ensures
        b == occurs_at(s@, q@, i as int),
{
    let m = q.len();
    let _n = s.len();
    let mut j: usize = 0;
    while j < m
        invariant
            m == q@.len(),
            i + m <= s@.len(),
            s@.len() <= usize::MAX,
            j <= m,
            forall|k: int| 0 <= k < j ==> s@[i + k] == q@[k],
        decreases m - j,
    {
        if s[i + j] != q[j] {
            assert(s@.subrange(i as int, i + m)[j as int] != q@[j as int]);
            return false;
        }
        j = j + 1;
    }
    assert(s@.subrange(i as int, i + m) =~= q@);
    true
}

/// Does `q` occur in `s`?
pub fn occurs(s: &Vec<char>, q: &Vec<char>) -> (b: bool)
    ensures
        b == occurs_in(s@, q@),
{
    let n = s.len();
    let m = q.len();
    if m > n {
        assert forall|i: int| !occurs_at(s@, q@, i) by {}
        return false;
    }
    if m == 0 {
        assert(occurs_at(s@, q@, 0)) by {
            assert(s@.subrange(0, 0) =~= q@);
        }
        return true;
    }
    let mut i: usize = 0;
    while i <= n - m
        invariant
            n == s@.len(),
            m == q@.len(),
            1 <= m <= n,
            i <= n - m + 1,
            forall|k: int| 0 <= k < i ==> !occurs_at(s@, q@, k),
        decreases n - i,
    {
        if occurs_at_exec(s, q, i) {
            return true;
        }
        i = i + 1;
    }
    assert forall|k: int| !occurs_at(s@, q@, k) by {
        if 0 <= k < i {
        }
    }
    false
}

/// A path matches a (lowercased) query where the query occurs in the
/// lowercased path, or in the lowercased name of its last component where
/// that name is not empty.
pub open spec fn path_matches(path: Seq<char>, query: Seq<char>) -> bool {
    occurs_in(lowercase(path), query) || (last_segment(path).len() > 0 && occurs_in(
        lowercase(last_segment(path)),
        query,
    ))
}

/// Does `path` match the lowercased `query`?
pub fn path_matches_query(path: &str, query: &str) -> (b: bool)
    ensures
        b == path_matches(path@, query@),
{
    let q = chars_of(query);
    let lower = to_lowercase(path);
    let lower_chars = chars_of(lower.as_str());
    if occurs(&lower_chars, &q) {
        return true;
    }
    let name = last_segment_of(path);
    if name.as_str().unicode_len() == 0 {
        return false;
    }
    let lower_name = to_lowercase(name.as_str());
    let lower_name_chars = chars_of(lower_name.as_str());
    occurs(&lower_name_chars, &q)
}

/// Number of leading characters of `s` with the `White_Space` property.
pub open spec fn leading_white(s: Seq<char>) -> int
    decreases s.len(),
{
    if s.len() > 0 && is_white(s[0]) {
        1 + leading_white(s.drop_first())
    } else {
        0
    }
}

/// Number of trailing characters of `s` with the `White_Space` property.
pub open spec fn trailing_white(s: Seq<char>) -> int
    decreases s.len(),
{
    if s.len() > 0 && is_white(s.last()) {
        1 + trailing_white(s.drop_last())
    } else {
        0
    }
}

/// `s` without leading and trailing white space, as `str::trim` gives it.
pub open spec fn trim_white(s: Seq<char>) -> Seq<char> {
    let t = s.skip(leading_white(s));
    t.take(t.len() - trailing_white(t))
}

proof fn lemma_leading_at(s: Seq<char>, k: int)
    requires
        0 <= k <= s.len(),
        forall|j: int| 0 <= j < k ==> is_white(s[j]),
        k == s.len() || !is_white(s[k]),
    ensures
        leading_white(s) == k,
    decreases k,
{
    if k > 0 {
        let t = s.drop_first();
        assert forall|j: int| 0 <= j < k - 1 implies is_white(t[j]) by {
            assert(t[j] == s[j + 1]);
        }
        if k - 1 < t.len() {
            assert(t[k - 1] == s[k]);
        }
        lemma_leading_at(t, k - 1);
    }
}

proof fn lemma_trailing_at(s: Seq<char>, e: int)
    requires
        0 <= e <= s.len(),
        forall|j: int| e <= j < s.len() ==> is_white(s[j]),
        e == 0 || !is_white(s[e - 1]),
    ensures
        trailing_white(s) == s.len() - e,
    decreases s.len() - e,
{
    if e < s.len() {
        let t = s.drop_last();
        assert forall|j: int| e <= j < t.len() implies is_white(t[j]) by {
            assert(t[j] == s[j]);
        }
        if e > 0 {
            assert(t[e - 1] == s[e - 1]);
        }
        lemma_trailing_at(t, e);
    }
}

/// Trims white space at both ends of `s`.
pub fn trim(s: &str) -> (r: String)
    ensures
        r@ == trim_white(s@),
{
    let n = s.unicode_len();
    let mut b: usize = 0;
    while b < n && char_is_whitespace(s.get_char(b))
        invariant
            n == s@.len(),
            b <= n,
            forall|j: int| 0 <= j < b ==> is_white(s@[j]),
        decreases n - b,
    {
        b = b + 1;
    }
    proof {
        lemma_leading_at(s@, b as int);
    }
    let ghost t = s@.skip(b as int);
    let mut e: usize = n;
    while e > b && char_is_whitespace(s.get_char(e - 1))
        invariant
            n == s@.len(),
            b <= e <= n,
            forall|j: int| e <= j < n ==> is_white(s@[j]),
        decreases e,
    {
        e = e - 1;
    }
    proof {
        assert forall|j: int| e - b <= j < t.len() implies is_white(t[j]) by {
            assert(t[j] == s@[j + b]);
        }
        if e > b {
            assert(t[e - b - 1] == s@[e - 1]);
        }
        lemma_trailing_at(t, e - b);
        assert(t.take(e - b) =~= s@.subrange(b as int, e as int));
    }
    crate::text::substring(s, b, e)
}

} // verus!
