//! Znode metadata, access control entries and their permissions.
use vstd::prelude::*;

verus! {

/// The metadata ZooKeeper keeps for a znode.
#[derive(Debug, Clone, Copy, PartialEq, Eq, Structural)]
pub struct NodeStat {
    pub czxid: i64,
    pub mzxid: i64,
    pub ctime: i64,
    pub mtime: i64,
    pub version: i32,
    pub cversion: i32,
    pub aversion: i32,
    pub ephemeral_owner: i64,
    pub data_length: i32,
    pub num_children: i32,
    pub pzxid: i64,
}

/// The metadata with every field zero.
pub open spec fn zero_stat() -> NodeStat {
    NodeStat {
        czxid: 0,
        mzxid: 0,
        ctime: 0,
        mtime: 0,
        version: 0,
        cversion: 0,
        aversion: 0,
        ephemeral_owner: 0,
        data_length: 0,
        num_children: 0,
        pzxid: 0,
    }
}

impl NodeStat {
    /// Metadata with every field zero, shown before the real one arrives.
    pub fn zero() -> (r: NodeStat)
        ensures
            r == zero_stat(),
    {
        NodeStat {
            czxid: 0,
            mzxid: 0,
            ctime: 0,
            mtime: 0,
            version: 0,
            cversion: 0,
            aversion: 0,
            ephemeral_owner: 0,
            data_length: 0,
            num_children: 0,
            pzxid: 0,
        }
    }
}

/// One access control entry: who (`scheme`:`id`) may do what (`perms`).
#[derive(Debug, Clone)]
pub struct AclEntry {
    pub scheme: String,
    pub id: String,
    pub perms: u32,
}

impl AclEntry {
    /// A copy of this entry.
    pub fn duplicate(&self) -> (r: AclEntry)
        ensures
            r == *self,
    {
        AclEntry { scheme: self.scheme.clone(), id: self.id.clone(), perms: self.perms }
    }
}

/// A copy of a list of entries.
pub fn copy_acl(v: &Vec<AclEntry>) -> (r: Vec<AclEntry>)
    ensures
        r@ == v@,
{
    let mut r: Vec<AclEntry> = Vec::new();
    let n = v.len();
    let mut i: usize = 0;
    while i < n
        invariant
            n == v@.len(),
            i <= n,
            r@ == v@.take(i as int),
        decreases n - i,
    {
        r.push(v[i].duplicate());
        i = i + 1;
        assert(r@ =~= v@.take(i as int));
    }
    assert(v@.take(n as int) =~= v@);
    r
}

/// Permission bits.
pub const PERM_READ: u32 = 1;

pub const PERM_WRITE: u32 = 2;

pub const PERM_CREATE: u32 = 4;

pub const PERM_DELETE: u32 = 8;

pub const PERM_ADMIN: u32 = 16;

/// All five permissions.
pub const PERM_ALL: u32 = 31;

/// `c` where `bit` is set in `perms`, else nothing.
pub open spec fn flag_char(perms: u32, bit: u32, c: char) -> Seq<char> {
    if perms & bit != 0 {
        seq![c]
    } else {
        Seq::empty()
    }
}

/// The letters `r`, `w`, `c`, `d`, `a` of the permissions set in `perms`, in
/// that order, or `-` where none of them is set.
pub open spec fn perm_text(perms: u32) -> Seq<char> {
    let s = flag_char(perms, 1, 'r') + flag_char(perms, 2, 'w') + flag_char(perms, 4, 'c')
        + flag_char(perms, 8, 'd') + flag_char(perms, 16, 'a');
    if s.len() == 0 {
        seq!['-']
    } else {
        s
    }
}

/// Short text of a permission set, such as `rwcda`, `r` or `-`.
pub fn perm_string(perms: u32) -> (r: String)
    ensures
        r@ == perm_text(perms),
{
    proof {
        reveal_strlit("r");
        reveal_strlit("w");
        reveal_strlit("c");
        reveal_strlit("d");
        reveal_strlit("a");
        reveal_strlit("-");
    }
    let mut s = String::new();
    if perms & 1 != 0 {
        s.append("r");
    }
    if perms & 2 != 0 {
        s.append("w");
    }
    if perms & 4 != 0 {
        s.append("c");
    }
    if perms & 8 != 0 {
        s.append("d");
    }
    if perms & 16 != 0 {
        s.append("a");
    }
    assert(s@ =~= flag_char(perms, 1, 'r') + flag_char(perms, 2, 'w') + flag_char(perms, 4, 'c')
        + flag_char(perms, 8, 'd') + flag_char(perms, 16, 'a'));
    if s.as_str().unicode_len() == 0 {
        s.append("-");
        assert(s@ =~= seq!['-']);
    }
    s
}

/// The five permissions of a set, one flag each: read, write, create,
/// delete, admin.
pub open spec fn flags_of(perms: u32) -> (bool, bool, bool, bool, bool) {
    (perms & 1 != 0, perms & 2 != 0, perms & 4 != 0, perms & 8 != 0, perms & 16 != 0)
}

/// The permission set with the given flags.
pub open spec fn perms_of(r: bool, w: bool, c: bool, d: bool, a: bool) -> u32 {
    (if r {
        1u32
    } else {
        0u32
    }) | (if w {
        2u32
    } else {
        0u32
    }) | (if c {
        4u32
    } else {
        0u32
    }) | (if d {
        8u32
    } else {
        0u32
    }) | (if a {
        16u32
    } else {
        0u32
    })
}

/// Splits a permission set into its five flags.
pub fn perm_flags(perms: u32) -> (r: (bool, bool, bool, bool, bool))
    ensures
        r == flags_of(perms),
{
    (perms & 1 != 0, perms & 2 != 0, perms & 4 != 0, perms & 8 != 0, perms & 16 != 0)
}

/// Builds a permission set from its five flags.
pub fn perms_from_flags(r: bool, w: bool, c: bool, d: bool, a: bool) -> (p: u32)
    ensures
        p == perms_of(r, w, c, d, a),
{
    let bit_r: u32 = if r {
        1
    } else {
        0
    };
    let bit_w: u32 = if w {
        2
    } else {
        0
    };
    let bit_c: u32 = if c {
        4
    } else {
        0
    };
    let bit_d: u32 = if d {
        8
    } else {
        0
    };
    let bit_a: u32 = if a {
        16
    } else {
        0
    };
    bit_r | bit_w | bit_c | bit_d | bit_a
}

/// Splitting a set into flags and building it back keeps the five
/// permission bits and drops all others; building a set from flags and
/// splitting it gives back the flags.
pub proof fn lemma_flags_round_trip(perms: u32, r: bool, w: bool, c: bool, d: bool, a: bool)
    ensures
        ({
            let f = flags_of(perms);
            perms_of(f.0, f.1, f.2, f.3, f.4)
        }) == perms & 31,
        flags_of(perms_of(r, w, c, d, a)) == (r, w, c, d, a),
{
    let (f0, f1, f2, f3, f4) = flags_of(perms);
    assert(perms_of(f0, f1, f2, f3, f4) == perms & 31) by (bit_vector)
        requires
            f0 == (perms & 1 != 0),
            f1 == (perms & 2 != 0),
            f2 == (perms & 4 != 0),
            f3 == (perms & 8 != 0),
            f4 == (perms & 16 != 0),
    ;
    let p = perms_of(r, w, c, d, a);
    assert(p & 1 != 0 <==> r) by (bit_vector)
        requires
            p == perms_of(r, w, c, d, a),
    ;
    assert(p & 2 != 0 <==> w) by (bit_vector)
        requires
            p == perms_of(r, w, c, d, a),
    ;
    assert(p & 4 != 0 <==> c) by (bit_vector)
        requires
            p == perms_of(r, w, c, d, a),
    ;
    assert(p & 8 != 0 <==> d) by (bit_vector)
        requires
            p == perms_of(r, w, c, d, a),
    ;
    assert(p & 16 != 0 <==> a) by (bit_vector)
        requires
            p == perms_of(r, w, c, d, a),
    ;
}

/// Only the five permission bits show in the text of a set, and the text is
/// never empty.
pub proof fn lemma_perm_text_low_bits(perms: u32)
    ensures
        perm_text(perms) == perm_text(perms & 31),
        perm_text(perms).len() >= 1,
        perm_text(perms) == seq!['-'] <==> perms & 31 == 0,
{
    let q = perms & 31;
    assert(perms & 1 == q & 1 && perms & 2 == q & 2 && perms & 4 == q & 4 && perms & 8 == q & 8
        && perms & 16 == q & 16) by (bit_vector)
        requires
            q == perms & 31,
    ;
    assert(q == 0 <==> (perms & 1 == 0 && perms & 2 == 0 && perms & 4 == 0 && perms & 8 == 0
        && perms & 16 == 0)) by (bit_vector)
        requires
            q == perms & 31,
    ;
    let s = flag_char(perms, 1, 'r') + flag_char(perms, 2, 'w') + flag_char(perms, 4, 'c')
        + flag_char(perms, 8, 'd') + flag_char(perms, 16, 'a');
    if q != 0 {
        assert(s.len() > 0);
        assert(s[0] != '-');
        assert(perm_text(perms) != seq!['-']);
    }
}

/// How a znode is created: whether it outlives the session, and whether
/// ZooKeeper appends a sequence number to its name.
#[derive(Debug, Clone, Copy, PartialEq, Eq, Structural)]
pub enum CreateMode {
    Persistent,
    Ephemeral,
    PersistentSequential,
    EphemeralSequential,
}

impl CreateMode {
    /// Name of the mode as shown to the user.
    pub fn label(self) -> (r: &'static str)
        ensures
            r@ == (match self {
                CreateMode::Persistent => "Persistent"@,
                CreateMode::Ephemeral => "Ephemeral"@,
                CreateMode::PersistentSequential => "Persistent Sequential"@,
                CreateMode::EphemeralSequential => "Ephemeral Sequential"@,
            }),
    {
        match self {
            CreateMode::Persistent => "Persistent",
            CreateMode::Ephemeral => "Ephemeral",
            CreateMode::PersistentSequential => "Persistent Sequential",
            CreateMode::EphemeralSequential => "Ephemeral Sequential",
        }
    }
}

/// What a watch on a znode looks at.
#[derive(Debug, Clone, Copy, PartialEq, Eq, Structural)]
pub enum WatchType {
    Children,
    Data,
}

} // verus!
