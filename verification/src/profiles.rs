//! Saved connections and the folders that hold them: their order on
//! screen, the labels of the folder picker, and the connection form.
use vstd::prelude::*;

verus! {

/// A saved connection.
#[derive(Debug, Clone)]
pub struct ConnProfile {
    pub id: i64,
    pub name: String,
    pub hosts: String,
    pub timeout_ms: i32,
    pub auth_scheme: String,
    pub auth_credential: String,
    pub category: String,
    pub folder_id: Option<i64>,
    pub position: i32,
    pub created_at: String,
    pub last_used_at: Option<String>,
}

/// A folder of saved connections; folders nest.
#[derive(Debug, Clone)]
pub struct Folder {
    pub id: i64,
    pub name: String,
    pub parent_id: Option<i64>,
    pub position: i32,
}

/// Gap left between positions, so that items can later be put in between.
pub const POSITION_STEP: i32 = 1024;

/// Index of the first sibling with id `id`.
pub open spec fn first_with_id(s: Seq<(i64, i32)>, id: i64) -> Option<int>
    decreases s.len(),
{
    if s.len() == 0 {
        None
    } else if s[0].0 == id {
        Some(0)
    } else {
        match first_with_id(s.drop_first(), id) {
            Some(i) => Some(i + 1),
            None => None,
        }
    }
}

/// Index of the last sibling whose id is below `id`.
pub open spec fn last_id_below(s: Seq<(i64, i32)>, id: i64) -> Option<int>
    decreases s.len(),
{
    if s.len() == 0 {
        None
    } else if s.last().0 < id {
        Some(s.len() - 1)
    } else {
        last_id_below(s.drop_last(), id)
    }
}

/// `x / 2`, rounded toward zero as Rust divides.
pub open spec fn half_toward_zero(x: int) -> int {
    if x >= 0 {
        x / 2
    } else {
        -((-x) / 2)
    }
}

/// Position at the end of the list: one step past the last sibling, or one
/// step where there is none.
pub open spec fn end_position(s: Seq<(i64, i32)>) -> int {
    if s.len() == 0 {
        POSITION_STEP as int
    } else {
        s.last().1 + POSITION_STEP
    }
}

/// The sum that the new position is computed from, before halving; or the
/// end position where the item goes to the end.
pub open spec fn position_sum(s: Seq<(i64, i32)>, before_id: Option<i64>) -> Option<int> {
    match before_id {
        Some(bid) => match (first_with_id(s, bid), last_id_below(s, bid)) {
            (Some(b), Some(p)) => Some(s[b].1 + s[p].1),
            (Some(b), None) => Some(s[b].1 as int),
            _ => None,
        },
        None => None,
    }
}

/// The position an item takes when dropped before the sibling `before_id`
/// (at the end where that is `None` or not a sibling): halfway between that
/// sibling and the last sibling with a smaller id, or half the sibling's
/// position where there is none.
pub open spec fn new_position(s: Seq<(i64, i32)>, before_id: Option<i64>) -> int {
    match position_sum(s, before_id) {
        Some(sum) => half_toward_zero(sum),
        None => end_position(s),
    }
}

/// The arithmetic of the new position stays within `i32`.
pub open spec fn position_fits(s: Seq<(i64, i32)>, before_id: Option<i64>) -> bool {
    match position_sum(s, before_id) {
        Some(sum) => i32::MIN <= sum <= i32::MAX,
        None => end_position(s) <= i32::MAX,
    }
}

proof fn lemma_first_with_id(s: Seq<(i64, i32)>, id: i64)
    ensures
        match first_with_id(s, id) {
            Some(i) => 0 <= i < s.len() && s[i].0 == id && forall|k: int|
                0 <= k < i ==> s[k].0 != id,
            None => forall|k: int| 0 <= k < s.len() ==> s[k].0 != id,
        },
    decreases s.len(),
{
    if s.len() > 0 && s[0].0 != id {
        lemma_first_with_id(s.drop_first(), id);
        let t = s.drop_first();
        match first_with_id(t, id) {
            Some(i) => {
                assert forall|k: int| 0 <= k < i + 1 implies s[k].0 != id by {
                    if k > 0 {
                        assert(s[k] == t[k - 1]);
                    }
                }
            },
            None => {
                assert forall|k: int| 0 <= k < s.len() implies s[k].0 != id by {
                    if k > 0 {
                        assert(s[k] == t[k - 1]);
                    }
                }
            },
        }
    }
}

proof fn lemma_first_with_id_at(s: Seq<(i64, i32)>, id: i64, i: int)
    requires
        0 <= i < s.len(),
        s[i].0 == id,
        forall|k: int| 0 <= k < i ==> s[k].0 != id,
    ensures
        first_with_id(s, id) == Some(i),
{
    lemma_first_with_id(s, id);
}

proof fn lemma_last_id_below(s: Seq<(i64, i32)>, id: i64)
    ensures
        match last_id_below(s, id) {
            Some(i) => 0 <= i < s.len() && s[i].0 < id && forall|k: int|
                i < k < s.len() ==> s[k].0 >= id,
            None => forall|k: int| 0 <= k < s.len() ==> s[k].0 >= id,
        },
    decreases s.len(),
{
    if s.len() > 0 && s.last().0 >= id {
        let t = s.drop_last();
        lemma_last_id_below(t, id);
        assert forall|k: int| 0 <= k < s.len() - 1 implies s[k] == t[k] by {}
    }
}

fn half(x: i32) -> (r: i32)
    ensures
        r == half_toward_zero(x as int),
{
    if x >= 0 {
        let u: u32 = x as u32;
        (u / 2) as i32
    } else if x == i32::MIN {
        -1073741824
    } else {
        let u: u32 = (-x) as u32;
        -((u / 2) as i32)
    }
}

/// The position an item takes when dropped before the sibling `before_id`
/// among `siblings` (their ids and positions, in screen order); `None`
/// where that arithmetic leaves the range of `i32`.
pub fn checked_reorder_position(siblings: &Vec<(i64, i32)>, before_id: Option<i64>) -> (r: Option<
    i32,
>)
    ensures
        r is Some <==> position_fits(siblings@, before_id),
        r matches Some(p) ==> p == new_position(siblings@, before_id),
{
    let n = siblings.len();
    let mut sum: Option<i64> = None;
    if let Some(bid) = before_id {
        let mut i: usize = 0;
        while i < n && siblings[i].0 != bid
            invariant
                n == siblings@.len(),
                i <= n,
                forall|k: int| 0 <= k < i ==> siblings@[k].0 != bid,
            decreases n - i,
        {
            i = i + 1;
        }
        proof {
            lemma_first_with_id(siblings@, bid);
            if i < n {
                lemma_first_with_id_at(siblings@, bid, i as int);
            }
        }
        let mut j: usize = n;
        while j > 0 && siblings[j - 1].0 >= bid
            invariant
                n == siblings@.len(),
                j <= n,
                forall|k: int| j <= k < n ==> siblings@[k].0 >= bid,
            decreases j,
        {
            j = j - 1;
        }
        proof {
            lemma_last_id_below_at(
                siblings@,
                bid,
                if j > 0 {
                    Some((j - 1) as usize)
                } else {
                    None
                },
            );
        }
        if i < n {
            if j > 0 {
                sum = Some(siblings[i].1 as i64 + siblings[j - 1].1 as i64);
            } else {
                sum = Some(siblings[i].1 as i64);
            }
        }
    }
    match sum {
        Some(x) => {
            if x < i32::MIN as i64 || x > i32::MAX as i64 {
                None
            } else {
                Some(half(x as i32))
            }
        },
        None => {
            let end: i64 = if n == 0 {
                POSITION_STEP as i64
            } else {
                siblings[n - 1].1 as i64 + POSITION_STEP as i64
            };
            if end > i32::MAX as i64 {
                None
            } else {
                Some(end as i32)
            }
        },
    }
}

/// The position an item takes when dropped before the sibling `before_id`
/// among `siblings` (their ids and positions, in screen order).
pub fn reorder_position(siblings: &Vec<(i64, i32)>, before_id: Option<i64>) -> (r: i32)
    requires
        position_fits(siblings@, before_id),
    ensures
        r == new_position(siblings@, before_id),
{
    match checked_reorder_position(siblings, before_id) {
        Some(p) => p,
        None => 0,
    }
}

proof fn lemma_last_id_below_at(s: Seq<(i64, i32)>, id: i64, p: Option<usize>)
    requires
        match p {
            Some(i) => 0 <= i < s.len() && s[i as int].0 < id && forall|k: int|
                i < k < s.len() ==> s[k].0 >= id,
            None => forall|k: int| 0 <= k < s.len() ==> s[k].0 >= id,
        },
    ensures
        last_id_below(s, id) == match p {
            Some(i) => Some(i as int),
            None => None::<int>,
        },
    decreases s.len(),
{
    if s.len() > 0 {
        let t = s.drop_last();
        if s.last().0 >= id {
            let q = match p {
                Some(i) => if (i as int) < s.len() - 1 {
                    Some(i)
                } else {
                    None
                },
                None => None,
            };
            match p {
                Some(i) => {
                    assert(i < s.len() - 1);
                    assert forall|k: int| i < k < t.len() implies t[k].0 >= id by {
                        assert(t[k] == s[k]);
                    }
                },
                None => {
                    assert forall|k: int| 0 <= k < t.len() implies t[k].0 >= id by {
                        assert(t[k] == s[k]);
                    }
                },
            }
            lemma_last_id_below_at(t, id, p);
        }
    }
}

/// An item dropped before a sibling that has a sibling with a smaller id
/// lands between the two positions (where those are in order); dropped at
/// the end, it lands after the last sibling.
pub proof fn lemma_position_between(s: Seq<(i64, i32)>, before_id: Option<i64>)
    ensures
        before_id matches Some(bid) ==> (first_with_id(s, bid) matches Some(b) ==> (
        last_id_below(s, bid) matches Some(p) ==> (s[p].1 <= s[b].1 ==> s[p].1 <= new_position(
            s,
            before_id,
        ) <= s[b].1))),
        position_sum(s, before_id) is None && s.len() > 0 ==> new_position(s, before_id)
            > s.last().1,
{
}

/// Two spaces for each level of depth.
pub open spec fn indent(depth: nat) -> Seq<char>
    decreases depth,
{
    if depth == 0 {
        Seq::empty()
    } else {
        indent((depth - 1) as nat) + seq![' ', ' ']
    }
}

/// Label of a folder in the folder picker: indented by its depth.
pub fn indented_label(depth: usize, name: &str) -> (r: String)
    ensures
        r@ == indent(depth as nat) + name@,
{
    proof {
        reveal_strlit("  ");
    }
    assert("  "@ =~= seq![' ', ' ']);
    let mut s = String::new();
    let mut i: usize = 0;
    while i < depth
        invariant
            i <= depth,
            s@ == indent(i as nat),
            "  "@ == seq![' ', ' '],
        decreases depth - i,
    {
        s.append("  ");
        i = i + 1;
        assert(s@ =~= indent(i as nat));
    }
    s.append(name);
    s
}

/// Full name of a folder from the names of the folders that hold it:
/// `outer/inner`, or just the name at the top.
pub open spec fn folder_full_name(prefix: Seq<char>, name: Seq<char>) -> Seq<char> {
    if prefix.len() == 0 {
        name
    } else {
        prefix + seq!['/'] + name
    }
}

/// Full name of a folder under the folder named `prefix`.
pub fn folder_path_label(prefix: &str, name: &str) -> (r: String)
    ensures
        r@ == folder_full_name(prefix@, name@),
{
    proof {
        reveal_strlit("/");
    }
    if prefix.unicode_len() == 0 {
        name.to_owned()
    } else {
        let mut s = prefix.to_owned();
        s.append("/");
        s.append(name);
        s
    }
}

/// The connection form: a new connection, or the saved one being edited.
pub struct ConnForm {
    pub editing: Option<ConnProfile>,
    pub name: String,
    pub hosts: String,
    pub timeout_ms: i32,
    pub auth_scheme: String,
    pub auth_credential: String,
    pub folder_id: Option<i64>,
    pub visible: bool,
}

impl ConnForm {
    /// The form for a new connection in `folder_id`: no name, the default
    /// host, a five-second timeout and digest authentication.
    pub fn blank(folder_id: Option<i64>) -> (r: ConnForm)
        ensures
            r.editing is None,
            r.name@.len() == 0,
            r.hosts@ == "127.0.0.1:2181"@,
            r.timeout_ms == 5000,
            r.auth_scheme@ == "digest"@,
            r.auth_credential@.len() == 0,
            r.folder_id == folder_id,
            r.visible,
    {
        ConnForm {
            editing: None,
            name: String::new(),
            hosts: "127.0.0.1:2181".to_owned(),
            timeout_ms: 5000,
            auth_scheme: "digest".to_owned(),
            auth_credential: String::new(),
            folder_id,
            visible: true,
        }
    }

    /// The form for editing the saved connection `conn`, filled with its
    /// settings.
    pub fn for_profile(conn: ConnProfile) -> (r: ConnForm)
        ensures
            r.editing == Some(conn),
            r.name == conn.name,
            r.hosts == conn.hosts,
            r.timeout_ms == conn.timeout_ms,
            r.auth_scheme == conn.auth_scheme,
            r.auth_credential == conn.auth_credential,
            r.folder_id == conn.folder_id,
            r.visible,
    {
        ConnForm {
            name: conn.name.clone(),
            hosts: conn.hosts.clone(),
            timeout_ms: conn.timeout_ms,
            auth_scheme: conn.auth_scheme.clone(),
            auth_credential: conn.auth_credential.clone(),
            folder_id: conn.folder_id,
            editing: Some(conn),
            visible: true,
        }
    }

    /// Before saving: a connection without a name is named by its hosts.
    pub fn fill_default_name(&mut self)
        ensures
            final(self).name == if old(self).name@.len() == 0 {
                old(self).hosts
            } else {
                old(self).name
            },
            final(self).editing == old(self).editing,
            final(self).hosts == old(self).hosts,
            final(self).timeout_ms == old(self).timeout_ms,
            final(self).auth_scheme == old(self).auth_scheme,
            final(self).auth_credential == old(self).auth_credential,
            final(self).folder_id == old(self).folder_id,
            final(self).visible == old(self).visible,
    {
        if self.name.as_str().unicode_len() == 0 {
            self.name = self.hosts.clone();
        }
    }
}

} // verus!
