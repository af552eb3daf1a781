//! The znode tree as the browser knows it: one node per path seen so far.
use vstd::prelude::*;
use vstd::hash_map::StringHashMap;
use crate::text::{child_path, child_path_spec, chars_of, root_path};

verus! {

/// How many children a node shows at first, and how many more each
/// "more" click reveals.
pub const CHILDREN_BATCH_SIZE: usize = 25;

/// Most search hits one search returns.
pub const SEARCH_MAX_RESULTS: usize = 300;

/// A znode as the tree shows it.
#[derive(Clone)]
pub struct TreeNode {
    pub name: String,
    pub path: String,
    pub expanded: bool,
    pub children_loaded: bool,
    pub children: Vec<String>,
    pub shown_count: usize,
    /// From the znode's metadata; tells a folder from a document before
    /// the node is expanded.
    pub num_children: Option<i32>,
}

/// `n` is a node that nothing has been loaded for yet.
pub open spec fn is_fresh_node(n: TreeNode, name: Seq<char>, path: Seq<char>, expanded: bool) -> bool {
    &&& n.name@ == name
    &&& n.path@ == path
    &&& n.expanded == expanded
    &&& !n.children_loaded
    &&& n.children@.len() == 0
    &&& n.shown_count == CHILDREN_BATCH_SIZE
    &&& n.num_children is None
}

/// `a` and `b` hold the same values.
pub open spec fn same_node(a: TreeNode, b: TreeNode) -> bool {
    &&& a.name == b.name
    &&& a.path == b.path
    &&& a.expanded == b.expanded
    &&& a.children_loaded == b.children_loaded
    &&& a.children@ == b.children@
    &&& a.shown_count == b.shown_count
    &&& a.num_children == b.num_children
}

/// A copy of a list of names.
pub fn copy_names(v: &Vec<String>) -> (r: Vec<String>)
    ensures
        r@ == v@,
{
    let mut r: Vec<String> = Vec::new();
    let n = v.len();
    let mut i: usize = 0;
    while i < n
        invariant
            n == v@.len(),
            i <= n,
            r@ == v@.take(i as int),
        decreases n - i,
    {
        r.push(v[i].clone());
        i = i + 1;
        assert(r@ =~= v@.take(i as int));
    }
    assert(v@.take(n as int) =~= v@);
    r
}

impl TreeNode {
    /// The root node `/`, expanded.
    pub fn root() -> (r: TreeNode)
        ensures
            is_fresh_node(r, root_path(), root_path(), true),
    {
        proof {
            reveal_strlit("/");
        }
        assert("/"@ =~= root_path());
        TreeNode {
            name: "/".to_owned(),
            path: "/".to_owned(),
            expanded: true,
            children_loaded: false,
            children: Vec::new(),
            shown_count: CHILDREN_BATCH_SIZE,
            num_children: None,
        }
    }

    /// The collapsed node for the child `name` of `parent_path`.
    pub fn new(name: String, parent_path: &str) -> (r: TreeNode)
        ensures
            is_fresh_node(r, name@, child_path_spec(parent_path@, name@), false),
    {
        let path = child_path(parent_path, name.as_str());
        TreeNode {
            name,
            path,
            expanded: false,
            children_loaded: false,
            children: Vec::new(),
            shown_count: CHILDREN_BATCH_SIZE,
            num_children: None,
        }
    }

    /// A copy of this node.
    pub fn duplicate(&self) -> (r: TreeNode)
        ensures
            same_node(r, *self),
    {
        TreeNode {
            name: self.name.clone(),
            path: self.path.clone(),
            expanded: self.expanded,
            children_loaded: self.children_loaded,
            children: copy_names(&self.children),
            shown_count: self.shown_count,
            num_children: self.num_children,
        }
    }
}

/// The icon of a znode in the tree.
#[derive(Clone, Copy, PartialEq, Eq, Structural, Debug)]
pub enum ZnodeIconKind {
    Root,
    ZkFolder,
    Document,
}

/// The icon of the node at `path`: the root, a folder where it has
/// children (by its metadata where known, else by its loaded children),
/// and a document otherwise.
pub open spec fn icon_kind(node: TreeNode, path: Seq<char>) -> ZnodeIconKind {
    if path == root_path() {
        ZnodeIconKind::Root
    } else {
        match node.num_children {
            Some(n) => if n > 0 {
                ZnodeIconKind::ZkFolder
            } else {
                ZnodeIconKind::Document
            },
            None => if node.children_loaded && node.children@.len() > 0 {
                ZnodeIconKind::ZkFolder
            } else {
                ZnodeIconKind::Document
            },
        }
    }
}

/// Whether the node may have children: by its metadata where known; else
/// unless its children were loaded and there are none.
pub open spec fn may_have_children(node: TreeNode) -> bool {
    match node.num_children {
        Some(n) => n > 0,
        None => !node.children_loaded || node.children@.len() > 0,
    }
}

/// The icon of the node at `path`.
pub fn znode_icon_kind(node: &TreeNode, path: &str) -> (r: ZnodeIconKind)
    ensures
        r == icon_kind(*node, path@),
{
    if crate::text::is_root(path) {
        return ZnodeIconKind::Root;
    }
    match node.num_children {
        Some(n) => if n > 0 {
            ZnodeIconKind::ZkFolder
        } else {
            ZnodeIconKind::Document
        },
        None => if node.children_loaded {
            if node.children.len() == 0 {
                ZnodeIconKind::Document
            } else {
                ZnodeIconKind::ZkFolder
            }
        } else {
            ZnodeIconKind::Document
        },
    }
}

/// Whether the node may have children.
pub fn znode_has_children(node: &TreeNode) -> (r: bool)
    ensures
        r == may_have_children(*node),
{
    match node.num_children {
        Some(n) => n > 0,
        None => !node.children_loaded || node.children.len() != 0,
    }
}

/// Away from the root, the icon is a folder exactly where the node has
/// children, once the node's metadata or its children are known; a node
/// known about by neither shows a document but may have children.
pub proof fn lemma_icon_agrees_with_children(node: TreeNode, path: Seq<char>)
    requires
        path != root_path(),
    ensures
        (node.num_children is Some || node.children_loaded) ==> ((icon_kind(node, path)
            == ZnodeIconKind::ZkFolder) == may_have_children(node)),
        (node.num_children is None && !node.children_loaded) ==> (icon_kind(node, path)
            == ZnodeIconKind::Document && may_have_children(node)),
{
}

/// Away from the root, a node whose child count is known shows as a
/// folder, with children to expand, as soon as it has one child or more,
/// and as a document, with nothing to expand, when it has none; a node
/// whose children were loaded instead goes by how many were loaded.
pub proof fn lemma_icon_by_child_count(node: TreeNode, path: Seq<char>)
    requires
        path != root_path(),
    ensures
        forall|n: i32|
            node.num_children == Some(n) && n >= 1 ==> icon_kind(node, path)
                == ZnodeIconKind::ZkFolder && may_have_children(node),
        node.num_children == Some(0i32) ==> icon_kind(node, path) == ZnodeIconKind::Document
            && !may_have_children(node),
        node.num_children is None && node.children_loaded && node.children@.len() >= 1
            ==> icon_kind(node, path) == ZnodeIconKind::ZkFolder && may_have_children(node),
        node.num_children is None && node.children_loaded && node.children@.len() == 0
            ==> icon_kind(node, path) == ZnodeIconKind::Document && !may_have_children(node),
        icon_kind(node, root_path()) == ZnodeIconKind::Root,
{
}

/// How many of the node's children are shown.
pub open spec fn visible_count(node: TreeNode) -> int {
    if node.shown_count < node.children@.len() {
        node.shown_count as int
    } else {
        node.children@.len() as int
    }
}

/// How many of the node's children are shown: the first `shown_count`,
/// or all where there are fewer.
pub fn shown_children(node: &TreeNode) -> (r: usize)
    ensures
        r == visible_count(*node),
        r <= node.children@.len(),
{
    if node.shown_count < node.children.len() {
        node.shown_count
    } else {
        node.children.len()
    }
}

/// `s` begins with `prefix`.
pub open spec fn starts_with(s: Seq<char>, prefix: Seq<char>) -> bool {
    prefix.len() <= s.len() && s.subrange(0, prefix.len() as int) == prefix
}

fn starts_with_exec(s: &Vec<char>, prefix: &Vec<char>) -> (b: bool)
    ensures
        b == starts_with(s@, prefix@),
{
    let n = prefix.len();
    if n > s.len() {
        return false;
    }
    let mut i: usize = 0;
    while i < n
        invariant
            n == prefix@.len(),
            n <= s@.len(),
            i <= n,
            forall|k: int| 0 <= k < i ==> s@[k] == prefix@[k],
        decreases n - i,
    {
        if s[i] != prefix[i] {
            assert(s@.subrange(0, n as int)[i as int] != prefix@[i as int]);
            return false;
        }
        i = i + 1;
    }
    assert(s@.subrange(0, n as int) =~= prefix@);
    true
}

/// Whether the node at `path` stays when the nodes under `parent` are
/// dropped: `parent` itself stays, and so does every path that does not
/// begin with `parent/` (under the root, only the root stays).
pub open spec fn stays_after_purge(path: Seq<char>, parent: Seq<char>) -> bool {
    if path == parent {
        true
    } else if parent == root_path() {
        false
    } else {
        !starts_with(path, parent + seq!['/'])
    }
}

/// Dropping the nodes under `parent` keeps `parent` and every node not
/// under it, leaves none strictly under it, and doing it twice is doing it
/// once.
pub proof fn lemma_purge_under(t: Map<Seq<char>, TreeNode>, parent: Seq<char>)
    ensures
        ({
            let keep = Set::new(|k: Seq<char>| stays_after_purge(k, parent));
            let p = t.restrict(keep);
            &&& t.contains_key(parent) ==> p.contains_key(parent) && p[parent] == t[parent]
            &&& forall|k: Seq<char>|
                #[trigger] p.contains_key(k) && k != parent ==> parent != root_path()
                    && !starts_with(k, parent + seq!['/'])
            &&& forall|k: Seq<char>|
                t.contains_key(k) && k != parent && parent != root_path() && !starts_with(
                    k,
                    parent + seq!['/'],
                ) ==> #[trigger] p.contains_key(k) && p[k] == t[k]
            &&& p.restrict(keep) == p
        }),
{
    let keep = Set::new(|k: Seq<char>| stays_after_purge(k, parent));
    let p = t.restrict(keep);
    assert(p.restrict(keep) =~= p);
}

/// The nodes of the tree, by path.
pub struct ZnodeTree {
    nodes: StringHashMap<TreeNode>,
    paths: Vec<String>,
}

impl View for ZnodeTree {
    type V = Map<Seq<char>, TreeNode>;

    closed spec fn view(&self) -> Map<Seq<char>, TreeNode> {
        self.nodes@
    }
}

/// The paths of a list, as character sequences.
pub open spec fn path_views(paths: Seq<String>) -> Seq<Seq<char>> {
    paths.map_values(|p: String| p@)
}

impl ZnodeTree {
    /// The tree's internal bookkeeping is consistent.
    pub closed spec fn wf(&self) -> bool {
        &&& path_views(self.paths@).no_duplicates()
        &&& forall|k: Seq<char>| #[trigger]
            self.nodes@.contains_key(k) <==> path_views(self.paths@).contains(k)
    }

    /// An empty tree.
    pub fn new() -> (r: ZnodeTree)
        ensures
            r.wf(),
            r@ == Map::<Seq<char>, TreeNode>::empty(),
    {
        let r = ZnodeTree { nodes: StringHashMap::new(), paths: Vec::new() };
        assert(path_views(r.paths@) =~= Seq::<Seq<char>>::empty());
        r
    }

    /// Is there a node at `path`?
    pub fn contains(&self, path: &str) -> (b: bool)
        ensures
            b == self@.contains_key(path@),
    {
        self.nodes.contains_key(path)
    }

    /// The node at `path`, where there is one.
    pub fn get(&self, path: &str) -> (r: Option<&TreeNode>)
        ensures
            match r {
                Some(n) => self@.contains_key(path@) && *n == self@[path@],
                None => !self@.contains_key(path@),
            },
    {
        self.nodes.get(path)
    }

    /// The paths of all nodes.
    pub fn paths(&self) -> (r: Vec<String>)
        requires
            self.wf(),
        ensures
            forall|k: Seq<char>| self@.contains_key(k) <==> path_views(r@).contains(k),
            path_views(r@).no_duplicates(),
    {
        copy_names(&self.paths)
    }

    /// Drops every node.
    pub fn clear(&mut self)
        ensures
            final(self).wf(),
            final(self)@ == Map::<Seq<char>, TreeNode>::empty(),
    {
        self.nodes.clear();
        self.paths = Vec::new();
        assert(path_views(self.paths@) =~= Seq::<Seq<char>>::empty());
    }

    /// Puts `node` at `path`, in place of any node there.
    pub fn set(&mut self, path: String, node: TreeNode)
        requires
            old(self).wf(),
        ensures
            final(self).wf(),
            final(self)@ == old(self)@.insert(path@, node),
    {
        if self.nodes.contains_key(path.as_str()) {
            self.nodes.insert(path, node);
        } else {
            let ghost old_paths = path_views(self.paths@);
            let key = path.clone();
            self.nodes.insert(path, node);
            self.paths.push(key);
            proof {
                assert(path_views(self.paths@) =~= old_paths.push(key@));
                assert forall|k: Seq<char>| #[trigger]
                    self.nodes@.contains_key(k) <==> path_views(self.paths@).contains(k) by {
                    if k == key@ {
                        assert(path_views(self.paths@)[old_paths.len() as int] == k);
                    } else if path_views(self.paths@).contains(k) {
                        let i = choose|i: int|
                            0 <= i < path_views(self.paths@).len() && path_views(self.paths@)[i]
                                == k;
                        assert(old_paths[i] == k);
                    } else if old_paths.contains(k) {
                        let i = choose|i: int| 0 <= i < old_paths.len() && old_paths[i] == k;
                        assert(path_views(self.paths@)[i] == k);
                    }
                }
                assert forall|i: int, j: int|
                    0 <= i < path_views(self.paths@).len() && 0 <= j < path_views(
                        self.paths@,
                    ).len() && i != j implies path_views(self.paths@)[i] != path_views(
                    self.paths@,
                )[j] by {
                    if i < old_paths.len() && j < old_paths.len() {
                    } else if i < old_paths.len() {
                        assert(old_paths.contains(old_paths[i]));
                    } else {
                        assert(old_paths.contains(old_paths[j]));
                    }
                }
            }
        }
    }

    /// Puts `node` at `path` unless a node is there already.
    pub fn insert_if_absent(&mut self, path: String, node: TreeNode)
        requires
            old(self).wf(),
        ensures
            final(self).wf(),
            final(self)@ == if old(self)@.contains_key(path@) {
                old(self)@
            } else {
                old(self)@.insert(path@, node)
            },
    {
        if !self.nodes.contains_key(path.as_str()) {
            self.set(path, node);
        }
    }

    /// Drops every node under `parent`, keeping `parent` itself (under the
    /// root, every node but the root goes).
    pub fn purge_under(&mut self, parent: &str)
        requires
            old(self).wf(),
        ensures
            final(self).wf(),
            final(self)@ == old(self)@.restrict(
                Set::new(|k: Seq<char>| stays_after_purge(k, parent@)),
            ),
    {
        proof {
            reveal_strlit("/");
        }
        let parent_is_root = crate::text::is_root(parent);
        let mut prefix = parent.to_owned();
        prefix.append("/");
        let prefix_chars = chars_of(prefix.as_str());
        let parent_chars = chars_of(parent);
        let ghost old_map = self.nodes@;
        let ghost old_paths = path_views(self.paths@);
        let ghost keep = Set::new(|k: Seq<char>| stays_after_purge(k, parent@));
        let n = self.paths.len();
        let mut kept: Vec<String> = Vec::new();
        let mut i: usize = 0;
        while i < n
            invariant
                n == self.paths@.len(),
                i <= n,
                old_paths == path_views(self.paths@),
                old_paths.no_duplicates(),
                prefix_chars@ == parent@ + seq!['/'],
                parent_chars@ == parent@,
                parent_is_root == (parent@ == root_path()),
                keep == Set::new(|k: Seq<char>| stays_after_purge(k, parent@)),
                forall|k: Seq<char>| #[trigger]
                    old_map.contains_key(k) <==> old_paths.contains(k),
                path_views(kept@).no_duplicates(),
                forall|k: Seq<char>|
                    #![trigger self.nodes@.contains_key(k)]
                    #![trigger path_views(kept@).contains(k)]
                    self.nodes@.contains_key(k) <==> (old_map.contains_key(k) && (
                    !old_paths.take(i as int).contains(k) || keep.contains(k))),
                forall|k: Seq<char>| #[trigger]
                    self.nodes@.contains_key(k) ==> self.nodes@[k] == old_map[k],
                forall|k: Seq<char>| #[trigger]
                    path_views(kept@).contains(k) <==> (old_paths.take(i as int).contains(k)
                        && keep.contains(k)),
            decreases n - i,
        {
            let p = self.paths[i].clone();
            let pc = chars_of(p.as_str());
            let same = pc.len() == parent_chars.len() && starts_with_exec(&pc, &parent_chars);
            proof {
                if same {
                    assert(pc@ =~= parent@);
                }
                if pc@ == parent@ {
                    assert(parent@.subrange(0, parent@.len() as int) =~= parent@);
                }
            }
            let stays = if same {
                true
            } else if parent_is_root {
                false
            } else {
                !starts_with_exec(&pc, &prefix_chars)
            };
            assert(stays == keep.contains(p@));
            let ghost before_kept = path_views(kept@);
            let ghost t0 = old_paths.take(i as int);
            let ghost t1 = old_paths.take(i + 1);
            assert(t1 =~= t0.push(p@));
            assert forall|k: Seq<char>| #[trigger] t1.contains(k) <==> (t0.contains(k) || k == p@) by {
                if t0.contains(k) {
                    let j = choose|j: int| 0 <= j < t0.len() && t0[j] == k;
                    assert(t1[j] == k);
                }
                if k == p@ {
                    assert(t1[t0.len() as int] == k);
                }
                if t1.contains(k) && k != p@ {
                    let j = choose|j: int| 0 <= j < t1.len() && t1[j] == k;
                    assert(t0[j] == k);
                }
            }
            if stays {
                kept.push(p);
                proof {
                    assert(path_views(kept@) =~= before_kept.push(p@));
                    assert(!t0.contains(p@)) by {
                        if t0.contains(p@) {
                            let j = choose|j: int|
                                0 <= j < i && t0[j] == p@;
                            assert(old_paths[j] == old_paths[i as int]);
                        }
                    }
                    assert forall|a: int, b: int|
                        0 <= a < path_views(kept@).len() && 0 <= b < path_views(kept@).len()
                            && a != b implies path_views(kept@)[a] != path_views(kept@)[b] by {
                        if a < before_kept.len() && b < before_kept.len() {
                        } else if a < before_kept.len() {
                            assert(before_kept.contains(before_kept[a]));
                        } else {
                            assert(before_kept.contains(before_kept[b]));
                        }
                    }
                    assert forall|k: Seq<char>| #[trigger]
                        path_views(kept@).contains(k) <==> (t1.contains(k)
                            && keep.contains(k)) by {
                        let kv = path_views(kept@);
                        if kv.contains(k) && k != p@ {
                            let j = choose|j: int| 0 <= j < kv.len() && kv[j] == k;
                            assert(before_kept[j] == k);
                        }
                        if before_kept.contains(k) {
                            let m = choose|m: int| 0 <= m < before_kept.len() && before_kept[m] == k;
                            assert(kv[m] == k);
                        }
                        if k == p@ {
                            assert(path_views(kept@)[before_kept.len() as int] == k);
                        }
                    }
                    assert forall|k: Seq<char>|
                        #![trigger self.nodes@.contains_key(k)]
                        self.nodes@.contains_key(k) <==> (old_map.contains_key(k) && (
                        !t1.contains(k) || keep.contains(k))) by {
                        if k != p@ && t1.contains(k) {
                            let j = choose|j: int|
                                0 <= j < i + 1 && t1[j] == k;
                            assert(t0[j] == k);
                        }
                    }
                }
            } else {
                self.nodes.remove(p.as_str());
                proof {
                    assert forall|k: Seq<char>| #[trigger]
                        path_views(kept@).contains(k) <==> (t1.contains(k)
                            && keep.contains(k)) by {
                        if t1.contains(k) && keep.contains(k) {
                            let j = choose|j: int|
                                0 <= j < i + 1 && t1[j] == k;
                            if j < i {
                                assert(t0[j] == k);
                            }
                        }
                    }
                    assert forall|k: Seq<char>|
                        #![trigger self.nodes@.contains_key(k)]
                        self.nodes@.contains_key(k) <==> (old_map.contains_key(k) && (
                        !t1.contains(k) || keep.contains(k))) by {
                        if k != p@ && t1.contains(k) {
                            let j = choose|j: int|
                                0 <= j < i + 1 && t1[j] == k;
                            assert(t0[j] == k);
                        }
                    }
                }
            }
            i = i + 1;
        }
        self.paths = kept;
        proof {
            assert(old_paths.take(n as int) =~= old_paths);
            assert(self.nodes@ =~= old_map.restrict(keep));
        }
    }
}

} // verus!
