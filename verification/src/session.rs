//! The browser's session: what it is connected to, the tree it has seen,
//! what is selected and being edited, and the search. Each user action and
//! each reply from the server is a step from one state to the next, which
//! hands back the requests the shell is to send.
use vstd::prelude::*;
use crate::lang::Lang;
use crate::matching::trim;
use crate::text::{child_path, child_path_spec, components_of, path_components, root_path};
use crate::tree::{is_fresh_node, same_node, TreeNode, ZnodeTree, SEARCH_MAX_RESULTS};
use crate::znode::{copy_acl, AclEntry, CreateMode, NodeStat, zero_stat};
use crate::profiles::ConnProfile;

verus! {

/// The tab of the detail panel.
#[derive(PartialEq, Eq, Structural, Clone, Copy, Debug)]
pub enum Tab {
    Data,
    Acl,
    Stat,
}

/// The state of the connection to ZooKeeper.
#[derive(Debug)]
pub enum ConnectState {
    Disconnected,
    Connecting,
    Connected { host: String, conn_id: i64 },
}

/// What is shown of the selected znode.
#[derive(Clone, Debug)]
pub struct NodeDetail {
    pub path: String,
    pub data: String,
    pub data_raw: Vec<u8>,
    pub stat: NodeStat,
    pub acl: Vec<AclEntry>,
}

/// `d` is the placeholder detail of `path`, shown until its data arrive.
pub open spec fn is_blank_detail(d: NodeDetail, path: Seq<char>) -> bool {
    &&& d.path@ == path
    &&& d.data@.len() == 0
    &&& d.data_raw@.len() == 0
    &&& d.stat == zero_stat()
    &&& d.acl@.len() == 0
}

/// What is being dragged in the sidebar.
#[derive(Clone, Copy, PartialEq, Eq, Structural, Debug)]
pub enum DragItemKind {
    Folder,
    Connection,
}

/// An item being dragged in the sidebar.
#[derive(Clone, Copy, PartialEq, Eq, Structural, Debug)]
pub struct DragItem {
    pub id: i64,
    pub kind: DragItemKind,
    pub source_folder_id: Option<i64>,
}

/// A request for the shell to carry out: most go to the ZooKeeper server,
/// the last ones to the shell itself.
#[derive(Debug)]
pub enum Request {
    Connect { hosts: String, timeout_ms: i32 },
    Disconnect,
    LoadChildren(String),
    LoadStat(String),
    /// Load both the data and the access list of a znode.
    LoadDetail(String),
    Search { query: String, max_results: usize, generation: u64 },
    Create { path: String, data: Vec<u8>, acl: Vec<AclEntry>, mode: CreateMode },
    Delete { path: String, version: i32 },
    DeleteChildren(String),
    SetData { path: String, data: Vec<u8>, version: i32 },
    SetAcl { path: String, acl: Vec<AclEntry>, version: i32 },
    /// Forget the search under way: its reply is no longer wanted.
    CancelSearch,
    /// Record that a saved connection was used just now.
    TouchConnection(i64),
}

/// A request, with its texts and lists as sequences.
pub enum RequestView {
    Connect { hosts: Seq<char>, timeout_ms: i32 },
    Disconnect,
    LoadChildren(Seq<char>),
    LoadStat(Seq<char>),
    LoadDetail(Seq<char>),
    Search { query: Seq<char>, max_results: usize, generation: u64 },
    Create { path: Seq<char>, data: Seq<u8>, acl: Seq<AclEntry>, mode: CreateMode },
    Delete { path: Seq<char>, version: i32 },
    DeleteChildren(Seq<char>),
    SetData { path: Seq<char>, data: Seq<u8>, version: i32 },
    SetAcl { path: Seq<char>, acl: Seq<AclEntry>, version: i32 },
    CancelSearch,
    TouchConnection(i64),
}

impl View for Request {
    type V = RequestView;

    open spec fn view(&self) -> RequestView {
        match self {
            Request::Connect { hosts, timeout_ms } => RequestView::Connect {
                hosts: hosts@,
                timeout_ms: *timeout_ms,
            },
            Request::Disconnect => RequestView::Disconnect,
            Request::LoadChildren(p) => RequestView::LoadChildren(p@),
            Request::LoadStat(p) => RequestView::LoadStat(p@),
            Request::LoadDetail(p) => RequestView::LoadDetail(p@),
            Request::Search { query, max_results, generation } => RequestView::Search {
                query: query@,
                max_results: *max_results,
                generation: *generation,
            },
            Request::Create { path, data, acl, mode } => RequestView::Create {
                path: path@,
                data: data@,
                acl: acl@,
                mode: *mode,
            },
            Request::Delete { path, version } => RequestView::Delete {
                path: path@,
                version: *version,
            },
            Request::DeleteChildren(p) => RequestView::DeleteChildren(p@),
            Request::SetData { path, data, version } => RequestView::SetData {
                path: path@,
                data: data@,
                version: *version,
            },
            Request::SetAcl { path, acl, version } => RequestView::SetAcl {
                path: path@,
                acl: acl@,
                version: *version,
            },
            Request::CancelSearch => RequestView::CancelSearch,
            Request::TouchConnection(id) => RequestView::TouchConnection(*id),
        }
    }
}

/// The views of a list of requests.
pub open spec fn request_views(s: Seq<Request>) -> Seq<RequestView> {
    s.map_values(|r: Request| r@)
}

/// How an attempt to connect ended.
pub enum ConnectReply {
    Connected,
    Failed(String),
    /// The worker went away without a word.
    Closed,
    /// Some reply that is no answer to connecting.
    Other,
}

/// How a change to the tree ended.
pub enum ActionReply {
    Created,
    Deleted,
    /// The children were deleted: this many nodes in all.
    ChildrenCleared(usize),
    SetData,
    SetAcl,
    ImportDone,
    Failed(String),
    /// Some reply that is no answer to a change.
    Other,
}

/// How a search ended.
pub enum SearchReply {
    Results(Vec<String>),
    Failed(String),
    /// The worker went away without a word.
    Closed,
    /// Some reply that is no answer to a search.
    Other,
}

/// Are two strings equal?
pub fn str_eq(a: &str, b: &str) -> (r: bool)
    ensures
        r == (a@ == b@),
{
    let n = a.unicode_len();
    if n != b.unicode_len() {
        return false;
    }
    let ac = crate::text::chars_of(a);
    let bc = crate::text::chars_of(b);
    let mut i: usize = 0;
    while i < n
        invariant
            n == ac@.len(),
            n == bc@.len(),
            ac@ == a@,
            bc@ == b@,
            i <= n,
            forall|k: int| 0 <= k < i ==> ac@[k] == bc@[k],
        decreases n - i,
    {
        if ac[i] != bc[i] {
            assert(ac@[i as int] != bc@[i as int]);
            return false;
        }
        i = i + 1;
    }
    assert(ac@ =~= bc@);
    true
}

/// The parent under which a node first heard of by its own path is made:
/// what precedes the last `/` (possibly nothing), or the root.
pub open spec fn new_node_parent(path: Seq<char>) -> Seq<char> {
    match crate::text::before_last_slash(path) {
        Some(p) => p,
        None => root_path(),
    }
}

/// The paths of the children `names` of `path`.
pub open spec fn child_keys(path: Seq<char>, names: Seq<String>) -> Seq<Seq<char>> {
    Seq::new(names.len(), |i: int| child_path_spec(path, names[i]@))
}

/// `n` is the node at `path` once its children `names` are listed: it was
/// `before`, or, where there was no node, a new one (the expanded root, or a
/// collapsed node named by the last component of `path`).
pub open spec fn listed_node(
    n: TreeNode,
    before: Option<TreeNode>,
    path: Seq<char>,
    names: Seq<String>,
) -> bool {
    &&& n.children@ == names
    &&& n.children_loaded
    &&& n.num_children == Some(names.len() as i32)
    &&& match before {
        Some(o) => n.name == o.name && n.path == o.path && n.expanded == o.expanded
            && n.shown_count == o.shown_count,
        None => if path == root_path() {
            n.name@ == root_path() && n.path@ == root_path() && n.expanded && n.shown_count
                == crate::tree::CHILDREN_BATCH_SIZE
        } else {
            n.name@ == crate::text::last_segment(path) && n.path@ == child_path_spec(
                new_node_parent(path),
                crate::text::last_segment(path),
            ) && !n.expanded && n.shown_count == crate::tree::CHILDREN_BATCH_SIZE
        },
    }
}

/// The node at `path` in `t`, where there is one.
pub open spec fn node_at(t: Map<Seq<char>, TreeNode>, path: Seq<char>) -> Option<TreeNode> {
    if t.contains_key(path) {
        Some(t[path])
    } else {
        None
    }
}

/// Two names give the same child path only where they are the same.
pub proof fn lemma_child_path_injective(parent: Seq<char>, a: Seq<char>, b: Seq<char>)
    requires
        child_path_spec(parent, a) == child_path_spec(parent, b),
    ensures
        a == b,
{
    let pa = child_path_spec(parent, a);
    let pb = child_path_spec(parent, b);
    let k = if parent == root_path() {
        1int
    } else {
        parent.len() + 1int
    };
    assert(pa.len() == pb.len());
    assert(a =~= pa.subrange(k, pa.len() as int));
    assert(b =~= pb.subrange(k, pb.len() as int));
}

/// The path made of the first `k` of the components `segs`, from the root.
pub open spec fn reveal_chain(segs: Seq<Seq<char>>, k: int) -> Seq<char>
    decreases k,
{
    if k <= 0 {
        root_path()
    } else {
        child_path_spec(reveal_chain(segs, k - 1), segs[k - 1])
    }
}

/// Whether the children of the node at `k` in `t` are loaded.
pub open spec fn loaded_in(t: Map<Seq<char>, TreeNode>, k: Seq<char>) -> bool {
    t.contains_key(k) && t[k].children_loaded
}

/// The loads that revealing the first `k` components asks for: each node
/// on the way whose children are not loaded.
pub open spec fn chain_loads(t: Map<Seq<char>, TreeNode>, segs: Seq<Seq<char>>, k: int) -> Seq<
    RequestView,
>
    decreases k,
{
    if k <= 0 {
        Seq::empty()
    } else {
        chain_loads(t, segs, k - 1) + if loaded_in(t, reveal_chain(segs, k)) {
            Seq::<RequestView>::empty()
        } else {
            seq![RequestView::LoadChildren(reveal_chain(segs, k))]
        }
    }
}

/// The paths on the way to a path are all different: each is longer than
/// the one before (where there are several, the first component is not
/// empty).
pub proof fn lemma_chain_distinct(segs: Seq<Seq<char>>)
    requires
        segs.len() >= 2 ==> segs[0].len() > 0,
    ensures
        forall|j: int, k: int|
            1 <= j < k <= segs.len() ==> reveal_chain(segs, j) != reveal_chain(segs, k),
{
    if segs.len() >= 2 {
        assert forall|k: int| 1 <= k <= segs.len() implies #[trigger] reveal_chain(segs, k).len()
            >= k + 1 by {
            lemma_chain_len(segs, k);
        }
        assert forall|j: int, k: int| 1 <= j < k <= segs.len() implies reveal_chain(segs, j)
            != reveal_chain(segs, k) by {
            lemma_chain_grows(segs, j, k);
        }
    }
}

proof fn lemma_chain_len(segs: Seq<Seq<char>>, k: int)
    requires
        segs.len() >= 2,
        segs[0].len() > 0,
        1 <= k <= segs.len(),
    ensures
        reveal_chain(segs, k).len() >= k + 1,
    decreases k,
{
    if k > 1 {
        lemma_chain_len(segs, k - 1);
    }
}

proof fn lemma_chain_grows(segs: Seq<Seq<char>>, j: int, k: int)
    requires
        segs.len() >= 2,
        segs[0].len() > 0,
        1 <= j < k <= segs.len(),
    ensures
        reveal_chain(segs, j).len() < reveal_chain(segs, k).len(),
    decreases k - j,
{
    lemma_chain_len(segs, k - 1);
    if j < k - 1 {
        lemma_chain_grows(segs, j, k - 1);
    }
}

proof fn lemma_chain_loads_same(
    t: Map<Seq<char>, TreeNode>,
    u: Map<Seq<char>, TreeNode>,
    segs: Seq<Seq<char>>,
    k: int,
)
    requires
        forall|key: Seq<char>| loaded_in(t, key) == loaded_in(u, key),
    ensures
        chain_loads(t, segs, k) == chain_loads(u, segs, k),
    decreases k,
{
    if k > 0 {
        lemma_chain_loads_same(t, u, segs, k - 1);
        assert(loaded_in(t, reveal_chain(segs, k)) == loaded_in(u, reveal_chain(segs, k)));
    }
}

/// The root request that revealing a path starts with: loading the root's
/// children where the root is there and they are not loaded.
pub open spec fn root_load(t: Map<Seq<char>, TreeNode>) -> Seq<RequestView> {
    if t.contains_key(root_path()) && !t[root_path()].children_loaded {
        seq![RequestView::LoadChildren(root_path())]
    } else {
        Seq::empty()
    }
}

/// What saving sends is what loading shows: the bytes that `do_save_data`
/// sends for a text are valid UTF-8, and `on_data` shows those bytes as
/// that same text.
pub proof fn lemma_saved_text_reads_back(text: Seq<char>)
    ensures
        vstd::utf8::valid_utf8(vstd::utf8::encode_utf8(text)),
        vstd::utf8::decode_utf8(vstd::utf8::encode_utf8(text)) == text,
{
    vstd::utf8::encode_utf8_valid_utf8(text);
    vstd::utf8::encode_utf8_decode_utf8(text);
}

/// Opening and then closing a sidebar folder (or the other way round)
/// leaves the set of open folders as it was.
pub proof fn lemma_folder_toggle_twice(open: Set<i64>, folder_id: i64)
    ensures
        ({
            let once = if open.contains(folder_id) {
                open.remove(folder_id)
            } else {
                open.insert(folder_id)
            };
            let twice = if once.contains(folder_id) {
                once.remove(folder_id)
            } else {
                once.insert(folder_id)
            };
            twice == open
        }),
{
    let once = if open.contains(folder_id) {
        open.remove(folder_id)
    } else {
        open.insert(folder_id)
    };
    let twice = if once.contains(folder_id) {
        once.remove(folder_id)
    } else {
        once.insert(folder_id)
    };
    assert(twice =~= open);
}

/// Revealing a path made of names reaches that very path: its components
/// are the names, and the `k`-th step of the way is the path of the first
/// `k` names; so `reveal_path` leaves, expanded, the node at the path and
/// at each of its ancestors.
pub proof fn lemma_reveal_reaches_path(names: Seq<Seq<char>>)
    requires
        names.len() >= 1,
        forall|i: int|
            0 <= i < names.len() ==> crate::text::is_name(#[trigger] names[i]) && names[i].len()
                > 0,
    ensures
        path_components(root_path() + crate::text::join_names(names)) == names,
        reveal_chain(names, names.len() as int) == root_path() + crate::text::join_names(names),
        forall|k: int|
            1 <= k <= names.len() ==> #[trigger] reveal_chain(names, k) == root_path()
                + crate::text::join_names(names.take(k)),
{
    crate::text::lemma_components_of_joined(names);
    assert forall|k: int| 1 <= k <= names.len() implies #[trigger] reveal_chain(names, k)
        == root_path() + crate::text::join_names(names.take(k)) by {
        lemma_chain_prefix(names, k);
    }
    assert(names.take(names.len() as int) =~= names);
    lemma_chain_prefix(names, names.len() as int);
}

proof fn lemma_chain_prefix(names: Seq<Seq<char>>, k: int)
    requires
        1 <= k <= names.len(),
        forall|i: int|
            0 <= i < names.len() ==> crate::text::is_name(#[trigger] names[i]) && names[i].len()
                > 0,
    ensures
        reveal_chain(names, k) == root_path() + crate::text::join_names(names.take(k)),
        reveal_chain(names, k).len() >= 2,
    decreases k,
{
    if k == 1 {
        assert(names.take(1) =~= seq![names[0]]);
        assert(crate::text::join_names(seq![names[0]]) == names[0]);
    } else {
        lemma_chain_prefix(names, k - 1);
        let prev = reveal_chain(names, k - 1);
        assert(prev != root_path());
        assert(names.take(k).drop_last() =~= names.take(k - 1));
        assert(names.take(k).last() == names[k - 1]);
        assert(root_path() + crate::text::join_names(names.take(k)) =~= prev + seq!['/']
            + names[k - 1]);
    }
}

/// The browser's session state.
pub struct Session {
    pub connect_state: ConnectState,
    pub tree: ZnodeTree,
    pub selected_path: Option<String>,
    pub selected_folder_id: Option<i64>,
    pub detail: Option<NodeDetail>,
    pub active_tab: Tab,
    pub edit_data: String,
    pub editing_data: bool,
    pub show_create_dialog: bool,
    pub create_name: String,
    pub create_data: String,
    pub create_mode: CreateMode,
    pub edit_acl: Vec<AclEntry>,
    pub editing_acl: bool,
    pub new_acl_scheme: String,
    pub new_acl_id: String,
    pub new_acl_perms: u32,
    pub search_query: String,
    pub search_results: Vec<String>,
    pub search_in_progress: bool,
    pub search_generation: u64,
    pub status_message: String,
    pub error_message: Option<String>,
    pub confirm_delete: bool,
    pub confirm_clear_children: Option<String>,
    pub clear_children_target: Option<String>,
    pub lang: Lang,
    pub hosts: String,
    pub timeout_ms: i32,
    pub active_conn_name: String,
    pub active_conn_id: Option<i64>,
    /// Sidebar folders shown open, each once.
    pub expanded_folders: Vec<i64>,
}

/// The address the browser offers to connect to at first.
pub open spec fn default_hosts() -> Seq<char> {
    "127.0.0.1:2181"@
}

fn owned(s: &str) -> (r: String)
    ensures
        r@ == s@,
{
    s.to_owned()
}

impl Session {
    /// The session's bookkeeping is consistent.
    pub open spec fn wf(&self) -> bool {
        &&& self.tree.wf()
        &&& self.expanded_folders@.no_duplicates()
    }

    /// A fresh session: disconnected, nothing selected, Chinese interface,
    /// the default host and timeout, and a new access entry form set to
    /// `world:anyone` with read permission.
    pub fn new() -> (r: Session)
        ensures
            r.wf(),
            r.connect_state is Disconnected,
            r.tree@ == Map::<Seq<char>, TreeNode>::empty(),
            r.selected_path is None,
            r.selected_folder_id is None,
            r.detail is None,
            r.active_tab == Tab::Data,
            r.edit_data@.len() == 0,
            !r.editing_data,
            !r.show_create_dialog,
            r.create_name@.len() == 0,
            r.create_data@.len() == 0,
            r.create_mode == CreateMode::Persistent,
            r.edit_acl@.len() == 0,
            !r.editing_acl,
            r.new_acl_scheme@ == "world"@,
            r.new_acl_id@ == "anyone"@,
            r.new_acl_perms == 1,
            r.search_query@.len() == 0,
            r.search_results@.len() == 0,
            !r.search_in_progress,
            r.search_generation == 0,
            r.status_message@.len() == 0,
            r.error_message is None,
            !r.confirm_delete,
            r.confirm_clear_children is None,
            r.clear_children_target is None,
            r.lang == Lang::Zh,
            r.hosts@ == default_hosts(),
            r.timeout_ms == 5000,
            r.active_conn_name@.len() == 0,
            r.active_conn_id is None,
            r.expanded_folders@.len() == 0,
    {
        Session {
            connect_state: ConnectState::Disconnected,
            tree: ZnodeTree::new(),
            selected_path: None,
            selected_folder_id: None,
            detail: None,
            active_tab: Tab::Data,
            edit_data: String::new(),
            editing_data: false,
            show_create_dialog: false,
            create_name: String::new(),
            create_data: String::new(),
            create_mode: CreateMode::Persistent,
            edit_acl: Vec::new(),
            editing_acl: false,
            new_acl_scheme: owned("world"),
            new_acl_id: owned("anyone"),
            new_acl_perms: 1,
            search_query: String::new(),
            search_results: Vec::new(),
            search_in_progress: false,
            search_generation: 0,
            status_message: String::new(),
            error_message: None,
            confirm_delete: false,
            confirm_clear_children: None,
            clear_children_target: None,
            lang: Lang::Zh,
            hosts: owned("127.0.0.1:2181"),
            timeout_ms: 5000,
            active_conn_name: String::new(),
            active_conn_id: None,
            expanded_folders: Vec::new(),
        }
    }

    /// Selects the znode at `path`: shows a blank detail for it until its
    /// data and access list, requested here, arrive.
    pub fn select_node(&mut self, path: &str) -> (reqs: Vec<Request>)
        ensures
            *final(self) == (Session {
                selected_folder_id: None,
                selected_path: final(self).selected_path,
                detail: final(self).detail,
                editing_data: false,
                editing_acl: false,
                ..*old(self)
            }),
            final(self).selected_path matches Some(p) && p@ == path@,
            final(self).detail matches Some(d) && is_blank_detail(d, path@),
            request_views(reqs@) == seq![RequestView::LoadDetail(path@)],
    {
        self.selected_folder_id = None;
        self.selected_path = Some(owned(path));
        self.detail = Some(
            NodeDetail {
                path: owned(path),
                data: String::new(),
                data_raw: Vec::new(),
                stat: NodeStat::zero(),
                acl: Vec::new(),
            },
        );
        self.editing_data = false;
        self.editing_acl = false;
        let mut reqs: Vec<Request> = Vec::new();
        reqs.push(Request::LoadDetail(owned(path)));
        assert(request_views(reqs@) =~= seq![RequestView::LoadDetail(path@)]);
        reqs
    }
    /// Selects the sidebar folder `folder_id`, leaving any znode selection
    /// and pending confirmation.
    pub fn select_folder(&mut self, folder_id: i64)
        ensures
            *final(self) == (Session {
                selected_folder_id: Some(folder_id),
                selected_path: None,
                detail: None,
                confirm_delete: false,
                confirm_clear_children: None,
                editing_data: false,
                editing_acl: false,
                ..*old(self)
            }),
    {
        self.selected_folder_id = Some(folder_id);
        self.selected_path = None;
        self.detail = None;
        self.confirm_delete = false;
        self.confirm_clear_children = None;
        self.editing_data = false;
        self.editing_acl = false;
    }

    /// Starts connecting to the current hosts, on behalf of the saved
    /// connection `conn_id`.
    pub fn do_connect(&mut self, conn_id: i64) -> (reqs: Vec<Request>)
        ensures
            *final(self) == (Session {
                connect_state: ConnectState::Connecting,
                active_conn_id: Some(conn_id),
                status_message: final(self).status_message,
                ..*old(self)
            }),
            final(self).status_message@ == "Connecting to "@ + old(self).hosts@ + "..."@,
            request_views(reqs@) == seq![
                RequestView::Connect { hosts: old(self).hosts@, timeout_ms: old(self).timeout_ms },
            ],
    {
        let mut reqs: Vec<Request> = Vec::new();
        reqs.push(Request::Connect { hosts: self.hosts.clone(), timeout_ms: self.timeout_ms });
        self.connect_state = ConnectState::Connecting;
        self.active_conn_id = Some(conn_id);
        let mut msg = owned("Connecting to ");
        msg.append(self.hosts.as_str());
        msg.append("...");
        self.status_message = msg;
        assert(request_views(reqs@) =~= seq![
            RequestView::Connect { hosts: old(self).hosts@, timeout_ms: old(self).timeout_ms },
        ]);
        reqs
    }

    /// Disconnects: forgets the tree, the selection and the search.
    pub fn do_disconnect(&mut self) -> (reqs: Vec<Request>)
        requires
            old(self).wf(),
        ensures
            final(self).wf(),
            *final(self) == (Session {
                connect_state: ConnectState::Disconnected,
                active_conn_id: None,
                detail: None,
                selected_path: None,
                selected_folder_id: None,
                tree: final(self).tree,
                search_query: final(self).search_query,
                search_results: final(self).search_results,
                search_in_progress: false,
                status_message: final(self).status_message,
                ..*old(self)
            }),
            final(self).tree@ == Map::<Seq<char>, TreeNode>::empty(),
            final(self).search_query@.len() == 0,
            final(self).search_results@.len() == 0,
            final(self).status_message@ == "Disconnected"@,
            request_views(reqs@) == seq![RequestView::Disconnect, RequestView::CancelSearch],
    {
        let mut reqs: Vec<Request> = Vec::new();
        reqs.push(Request::Disconnect);
        reqs.push(Request::CancelSearch);
        self.connect_state = ConnectState::Disconnected;
        self.active_conn_id = None;
        self.detail = None;
        self.selected_path = None;
        self.selected_folder_id = None;
        self.tree.clear();
        self.search_query = String::new();
        self.search_results = Vec::new();
        self.search_in_progress = false;
        self.status_message = owned("Disconnected");
        assert(request_views(reqs@) =~= seq![RequestView::Disconnect, RequestView::CancelSearch]);
        reqs
    }

    /// Connects with a saved connection's settings, and records its use.
    pub fn connect_from_profile(&mut self, conn: &ConnProfile) -> (reqs: Vec<Request>)
        ensures
            *final(self) == (Session {
                hosts: conn.hosts,
                timeout_ms: conn.timeout_ms,
                active_conn_name: conn.name,
                connect_state: ConnectState::Connecting,
                active_conn_id: Some(conn.id),
                status_message: final(self).status_message,
                ..*old(self)
            }),
            final(self).status_message@ == "Connecting to "@ + conn.hosts@ + "..."@,
            request_views(reqs@) == seq![
                RequestView::Connect { hosts: conn.hosts@, timeout_ms: conn.timeout_ms },
                RequestView::TouchConnection(conn.id),
            ],
    {
        self.hosts = conn.hosts.clone();
        self.timeout_ms = conn.timeout_ms;
        self.active_conn_name = conn.name.clone();
        let mut reqs = self.do_connect(conn.id);
        let ghost before = reqs@;
        reqs.push(Request::TouchConnection(conn.id));
        assert(reqs@ =~= before.push(Request::TouchConnection(conn.id)));
        assert(request_views(reqs@) =~= request_views(before).push(RequestView::TouchConnection(conn.id)));
        assert(request_views(reqs@) =~= seq![
            RequestView::Connect { hosts: conn.hosts@, timeout_ms: conn.timeout_ms },
            RequestView::TouchConnection(conn.id),
        ]);
        reqs
    }

    /// Expands or collapses the znode at `path`, and has its children
    /// loaded where they are not yet.
    pub fn toggle_znode_expand(&mut self, path: &str) -> (reqs: Vec<Request>)
        requires
            old(self).wf(),
        ensures
            final(self).wf(),
            *final(self) == (Session { tree: final(self).tree, ..*old(self) }),
            !old(self).tree@.contains_key(path@) ==> final(self).tree@ == old(self).tree@
                && reqs@.len() == 0,
            old(self).tree@.contains_key(path@) ==> {
                let n = old(self).tree@[path@];
                &&& final(self).tree@ == old(self).tree@.insert(
                    path@,
                    final(self).tree@[path@],
                )
                &&& same_node(final(self).tree@[path@], TreeNode { expanded: !n.expanded, ..n })
                &&& request_views(reqs@) == if n.children_loaded {
                    Seq::<RequestView>::empty()
                } else {
                    seq![RequestView::LoadChildren(path@)]
                }
            },
    {
        let mut reqs: Vec<Request> = Vec::new();
        match self.tree.get(path) {
            Some(n) => {
                let mut m = n.duplicate();
                m.expanded = !m.expanded;
                let loaded = m.children_loaded;
                self.tree.set(owned(path), m);
                if !loaded {
                    reqs.push(Request::LoadChildren(owned(path)));
                }
            },
            None => {},
        }
        assert(request_views(reqs@) =~= if old(self).tree@.contains_key(path@) && !old(
            self,
        ).tree@[path@].children_loaded {
            seq![RequestView::LoadChildren(path@)]
        } else {
            Seq::<RequestView>::empty()
        });
        reqs
    }

    /// Expands or collapses the root under the active connection, and has
    /// its children loaded where it is expanded and they are not yet.
    pub fn toggle_connection_tree_expand(&mut self) -> (reqs: Vec<Request>)
        requires
            old(self).wf(),
        ensures
            final(self).wf(),
            *final(self) == (Session { tree: final(self).tree, ..*old(self) }),
            !old(self).tree@.contains_key(root_path()) ==> final(self).tree@ == old(self).tree@
                && reqs@.len() == 0,
            old(self).tree@.contains_key(root_path()) ==> {
                let n = old(self).tree@[root_path()];
                &&& final(self).tree@ == old(self).tree@.insert(
                    root_path(),
                    final(self).tree@[root_path()],
                )
                &&& same_node(
                    final(self).tree@[root_path()],
                    TreeNode { expanded: !n.expanded, ..n },
                )
                &&& request_views(reqs@) == if !n.expanded && !n.children_loaded {
                    seq![RequestView::LoadChildren(root_path())]
                } else {
                    Seq::<RequestView>::empty()
                }
            },
    {
        proof {
            reveal_strlit("/");
        }
        assert("/"@ =~= root_path());
        let mut reqs: Vec<Request> = Vec::new();
        match self.tree.get("/") {
            Some(n) => {
                let mut m = n.duplicate();
                m.expanded = !m.expanded;
                let load = m.expanded && !m.children_loaded;
                self.tree.set(owned("/"), m);
                if load {
                    reqs.push(Request::LoadChildren(owned("/")));
                }
            },
            None => {},
        }
        assert(request_views(reqs@) =~= if old(self).tree@.contains_key(root_path()) && !old(
            self,
        ).tree@[root_path()].expanded && !old(self).tree@[root_path()].children_loaded {
            seq![RequestView::LoadChildren(root_path())]
        } else {
            Seq::<RequestView>::empty()
        });
        reqs
    }

    /// Whether the root of the saved connection `conn_id` is the selected
    /// node: that connection is the one connected, and `/` is selected.
    pub fn is_connection_root_selected(&self, conn_id: i64) -> (b: bool)
        ensures
            b == ((self.connect_state matches ConnectState::Connected { conn_id: id, .. }
                && id == conn_id) && (self.selected_path matches Some(p) && p@ == root_path())),
    {
        let connected = match &self.connect_state {
            ConnectState::Connected { conn_id: id, .. } => *id == conn_id,
            _ => false,
        };
        connected && match &self.selected_path {
            Some(p) => crate::text::is_root(p.as_str()),
            None => false,
        }
    }

    /// Shows one more batch of the children of the node at `path`.
    pub fn show_more_children(&mut self, path: &str)
        requires
            old(self).wf(),
            old(self).tree@.contains_key(path@) ==> old(self).tree@[path@].shown_count
                + crate::tree::CHILDREN_BATCH_SIZE <= usize::MAX,
        ensures
            final(self).wf(),
            *final(self) == (Session { tree: final(self).tree, ..*old(self) }),
            !old(self).tree@.contains_key(path@) ==> final(self).tree@ == old(self).tree@,
            old(self).tree@.contains_key(path@) ==> {
                let n = old(self).tree@[path@];
                &&& final(self).tree@ == old(self).tree@.insert(
                    path@,
                    final(self).tree@[path@],
                )
                &&& same_node(
                    final(self).tree@[path@],
                    TreeNode {
                        shown_count: (n.shown_count + crate::tree::CHILDREN_BATCH_SIZE) as usize,
                        ..n
                    },
                )
            },
    {
        match self.tree.get(path) {
            Some(n) => {
                let mut m = n.duplicate();
                m.shown_count = m.shown_count + crate::tree::CHILDREN_BATCH_SIZE;
                self.tree.set(owned(path), m);
            },
            None => {},
        }
    }

    /// Empties the search box and drops the search.
    pub fn clear_search(&mut self) -> (reqs: Vec<Request>)
        ensures
            *final(self) == (Session {
                search_query: final(self).search_query,
                search_results: final(self).search_results,
                search_in_progress: false,
                ..*old(self)
            }),
            final(self).search_query@.len() == 0,
            final(self).search_results@.len() == 0,
            request_views(reqs@) == seq![RequestView::CancelSearch],
    {
        self.search_query = String::new();
        self.search_results = Vec::new();
        self.search_in_progress = false;
        let mut reqs: Vec<Request> = Vec::new();
        reqs.push(Request::CancelSearch);
        assert(request_views(reqs@) =~= seq![RequestView::CancelSearch]);
        reqs
    }

    /// Starts a search for the query in the search box, with leading and
    /// trailing white space dropped: an empty query clears the results; a
    /// search starts only while connected, and gets a new generation number
    /// so that the replies of older searches can be told apart.
    pub fn start_tree_search(&mut self) -> (reqs: Vec<Request>)
        ensures
            ({
                let q = crate::matching::trim_white(old(self).search_query@);
                if q.len() == 0 {
                    &&& *final(self) == (Session {
                        search_results: final(self).search_results,
                        search_in_progress: false,
                        ..*old(self)
                    })
                    &&& final(self).search_results@.len() == 0
                    &&& request_views(reqs@) == seq![RequestView::CancelSearch]
                } else if !(old(self).connect_state is Connected) {
                    &&& *final(self) == *old(self)
                    &&& reqs@.len() == 0
                } else {
                    let g = if old(self).search_generation == u64::MAX {
                        0
                    } else {
                        (old(self).search_generation + 1) as u64
                    };
                    &&& *final(self) == (Session {
                        search_in_progress: true,
                        search_generation: g,
                        ..*old(self)
                    })
                    &&& request_views(reqs@) == seq![
                        RequestView::Search {
                            query: q,
                            max_results: SEARCH_MAX_RESULTS,
                            generation: g,
                        },
                    ]
                }
            }),
    {
        let q = trim(self.search_query.as_str());
        let mut reqs: Vec<Request> = Vec::new();
        if q.as_str().unicode_len() == 0 {
            self.search_results = Vec::new();
            self.search_in_progress = false;
            reqs.push(Request::CancelSearch);
            assert(request_views(reqs@) =~= seq![RequestView::CancelSearch]);
            return reqs;
        }
        let connected = match &self.connect_state {
            ConnectState::Connected { .. } => true,
            _ => false,
        };
        if !connected {
            return reqs;
        }
        self.search_in_progress = true;
        self.search_generation = self.search_generation.wrapping_add(1);
        reqs.push(
            Request::Search {
                query: q,
                max_results: SEARCH_MAX_RESULTS,
                generation: self.search_generation,
            },
        );
        assert(request_views(reqs@) =~= seq![
            RequestView::Search {
                query: crate::matching::trim_white(old(self).search_query@),
                max_results: SEARCH_MAX_RESULTS,
                generation: self.search_generation,
            },
        ]);
        reqs
    }
    /// Creates the child named in the create form under the selected node,
    /// with the form's data and mode and open access (`world:anyone`, all
    /// permissions); closes and empties the form. Does nothing without a
    /// selected node or a name.
    pub fn do_create_node(&mut self) -> (reqs: Vec<Request>)
        ensures
            old(self).selected_path is None || old(self).create_name@.len() == 0
                ==> *final(self) == *old(self) && reqs@.len() == 0,
            old(self).selected_path matches Some(parent) ==> old(self).create_name@.len() > 0 ==> {
                &&& *final(self) == (Session {
                    show_create_dialog: false,
                    create_name: final(self).create_name,
                    create_data: final(self).create_data,
                    ..*old(self)
                })
                &&& final(self).create_name@.len() == 0
                &&& final(self).create_data@.len() == 0
                &&& reqs@.len() == 1
                &&& reqs@[0] matches Request::Create { path, data, acl, mode }
                    && path@ == child_path_spec(parent@, old(self).create_name@)
                    && data@ == vstd::utf8::encode_utf8(old(self).create_data@)
                    && mode == old(self).create_mode
                    && acl@.len() == 1
                    && acl@[0].scheme@ == "world"@
                    && acl@[0].id@ == "anyone"@
                    && acl@[0].perms == crate::znode::PERM_ALL
            },
    {
        let mut reqs: Vec<Request> = Vec::new();
        if self.create_name.as_str().unicode_len() == 0 {
            return reqs;
        }
        match &self.selected_path {
            None => {
                return reqs;
            },
            Some(parent) => {
                let path = child_path(parent.as_str(), self.create_name.as_str());
                let mut acl: Vec<AclEntry> = Vec::new();
                acl.push(
                    AclEntry {
                        scheme: owned("world"),
                        id: owned("anyone"),
                        perms: crate::znode::PERM_ALL,
                    },
                );
                let data = crate::text::utf8_bytes(&self.create_data);
                reqs.push(Request::Create { path, data, acl, mode: self.create_mode });
            },
        }
        self.show_create_dialog = false;
        self.create_name = String::new();
        self.create_data = String::new();
        reqs
    }

    /// Deletes the selected node, whatever its version; the root cannot be
    /// deleted, which is reported as an error.
    pub fn do_delete_node(&mut self) -> (reqs: Vec<Request>)
        ensures
            old(self).selected_path is None ==> *final(self) == *old(self) && reqs@.len() == 0,
            old(self).selected_path matches Some(p) ==> p@ == root_path() ==> {
                &&& *final(self) == (Session {
                    error_message: final(self).error_message,
                    ..*old(self)
                })
                &&& final(self).error_message matches Some(m) && m@ == "Cannot delete root node"@
                &&& reqs@.len() == 0
            },
            old(self).selected_path matches Some(p) ==> p@ != root_path() ==> {
                &&& *final(self) == (Session { confirm_delete: false, ..*old(self) })
                &&& request_views(reqs@) == seq![RequestView::Delete { path: p@, version: -1i32 }]
            },
    {
        let mut reqs: Vec<Request> = Vec::new();
        match &self.selected_path {
            None => {},
            Some(path) => {
                if crate::text::is_root(path.as_str()) {
                    self.error_message = Some(owned("Cannot delete root node"));
                    return reqs;
                }
                reqs.push(Request::Delete { path: path.clone(), version: -1 });
                self.confirm_delete = false;
                assert(request_views(reqs@) =~= seq![
                    RequestView::Delete { path: path@, version: -1i32 },
                ]);
            },
        }
        reqs
    }

    /// Deletes every child of the node awaiting confirmation to be cleared,
    /// else of the selected node, and remembers which node that was.
    pub fn do_clear_children(&mut self) -> (reqs: Vec<Request>)
        ensures
            ({
                let target = match old(self).confirm_clear_children {
                    Some(p) => Some(p),
                    None => old(self).selected_path,
                };
                match target {
                    None => *final(self) == *old(self) && reqs@.len() == 0,
                    Some(p) => {
                        &&& *final(self) == (Session {
                            confirm_clear_children: None,
                            clear_children_target: Some(p),
                            ..*old(self)
                        })
                        &&& request_views(reqs@) == seq![RequestView::DeleteChildren(p@)]
                    },
                }
            }),
    {
        let mut reqs: Vec<Request> = Vec::new();
        let target = match self.confirm_clear_children.take() {
            Some(p) => Some(p),
            None => match &self.selected_path {
                Some(p) => Some(p.clone()),
                None => None,
            },
        };
        match target {
            None => {},
            Some(path) => {
                self.clear_children_target = Some(path.clone());
                reqs.push(Request::DeleteChildren(path));
                assert(request_views(reqs@) =~= seq![
                    RequestView::DeleteChildren(self.clear_children_target->0@),
                ]);
            },
        }
        reqs
    }

    /// Drops from the tree every node under `parent`.
    pub fn purge_tree_under(&mut self, parent: &str)
        requires
            old(self).wf(),
        ensures
            final(self).wf(),
            *final(self) == (Session { tree: final(self).tree, ..*old(self) }),
            final(self).tree@ == old(self).tree@.restrict(
                Set::new(|k: Seq<char>| crate::tree::stays_after_purge(k, parent@)),
            ),
    {
        self.tree.purge_under(parent);
    }

    /// Saves the edited data of the shown node, at the version shown.
    pub fn do_save_data(&mut self) -> (reqs: Vec<Request>)
        ensures
            old(self).detail is None ==> *final(self) == *old(self) && reqs@.len() == 0,
            old(self).detail matches Some(d) ==> {
                &&& *final(self) == (Session { editing_data: false, ..*old(self) })
                &&& request_views(reqs@) == seq![
                    RequestView::SetData {
                        path: d.path@,
                        data: vstd::utf8::encode_utf8(old(self).edit_data@),
                        version: d.stat.version,
                    },
                ]
            },
    {
        let mut reqs: Vec<Request> = Vec::new();
        match &self.detail {
            None => {},
            Some(d) => {
                reqs.push(
                    Request::SetData {
                        path: d.path.clone(),
                        data: crate::text::utf8_bytes(&self.edit_data),
                        version: d.stat.version,
                    },
                );
                self.editing_data = false;
                assert(request_views(reqs@) =~= seq![
                    RequestView::SetData {
                        path: d.path@,
                        data: vstd::utf8::encode_utf8(self.edit_data@),
                        version: d.stat.version,
                    },
                ]);
            },
        }
        reqs
    }

    /// Saves the edited access list of the shown node, at the version shown.
    pub fn do_save_acl(&mut self) -> (reqs: Vec<Request>)
        ensures
            old(self).detail is None ==> *final(self) == *old(self) && reqs@.len() == 0,
            old(self).detail matches Some(d) ==> {
                &&& *final(self) == (Session { editing_acl: false, ..*old(self) })
                &&& request_views(reqs@) == seq![
                    RequestView::SetAcl {
                        path: d.path@,
                        acl: old(self).edit_acl@,
                        version: d.stat.version,
                    },
                ]
            },
    {
        let mut reqs: Vec<Request> = Vec::new();
        match &self.detail {
            None => {},
            Some(d) => {
                reqs.push(
                    Request::SetAcl {
                        path: d.path.clone(),
                        acl: copy_acl(&self.edit_acl),
                        version: d.stat.version,
                    },
                );
                self.editing_acl = false;
                assert(request_views(reqs@) =~= seq![
                    RequestView::SetAcl {
                        path: d.path@,
                        acl: self.edit_acl@,
                        version: d.stat.version,
                    },
                ]);
            },
        }
        reqs
    }

    /// Takes the metadata of the node at `path` (`None` where it could not
    /// be read, which counts as no children), for its icon.
    pub fn on_stat(&mut self, path: &str, num_children: Option<i32>)
        requires
            old(self).wf(),
        ensures
            final(self).wf(),
            *final(self) == (Session { tree: final(self).tree, ..*old(self) }),
            !old(self).tree@.contains_key(path@) ==> final(self).tree@ == old(self).tree@,
            old(self).tree@.contains_key(path@) ==> {
                let n = old(self).tree@[path@];
                &&& final(self).tree@ == old(self).tree@.insert(
                    path@,
                    final(self).tree@[path@],
                )
                &&& same_node(
                    final(self).tree@[path@],
                    TreeNode {
                        num_children: Some(
                            match num_children {
                                Some(c) => c,
                                None => 0,
                            },
                        ),
                        ..n
                    },
                )
            },
    {
        match self.tree.get(path) {
            Some(n) => {
                let mut m = n.duplicate();
                m.num_children = Some(
                    match num_children {
                        Some(c) => c,
                        None => 0,
                    },
                );
                self.tree.set(owned(path), m);
            },
            None => {},
        }
    }

    /// Takes the data and metadata of the node at `path`: shown where that
    /// node is still the selected one, and put in the editor unless the user
    /// is editing.
    pub fn on_data(&mut self, path: &str, data: Vec<u8>, stat: NodeStat)
        ensures
            ({
                let shown = (old(self).selected_path matches Some(p) && p@ == path@)
                    && old(self).detail is Some;
                if !shown {
                    *final(self) == *old(self)
                } else {
                    &&& *final(self) == (Session {
                        detail: final(self).detail,
                        edit_data: final(self).edit_data,
                        ..*old(self)
                    })
                    &&& final(self).detail matches Some(d) && d == (NodeDetail {
                        data: d.data,
                        data_raw: d.data_raw,
                        stat: stat,
                        ..old(self).detail->0
                    }) && d.data@ == crate::text::utf8_lossy(data@) && d.data_raw@ == data@
                    &&& vstd::utf8::valid_utf8(data@) ==> final(self).detail->0.data@
                        == vstd::utf8::decode_utf8(data@)
                    &&& if old(self).editing_data {
                        final(self).edit_data == old(self).edit_data
                    } else {
                        final(self).edit_data@ == crate::text::utf8_lossy(data@)
                    }
                }
            }),
    {
        let selected = match &self.selected_path {
            Some(p) => str_eq(p.as_str(), path),
            None => false,
        };
        if !selected {
            return;
        }
        let text = crate::text::decode_lossy(&data);
        match &mut self.detail {
            Some(d) => {
                d.data = text.clone();
                d.data_raw = data;
                d.stat = stat;
            },
            None => {
                return;
            },
        }
        if !self.editing_data {
            self.edit_data = text;
        }
    }

    /// Takes the access list and metadata of the node at `path`: shown where
    /// that node is still the selected one, and put in the editor unless the
    /// user is editing.
    pub fn on_acl(&mut self, path: &str, acl: Vec<AclEntry>, stat: NodeStat)
        ensures
            ({
                let shown = (old(self).selected_path matches Some(p) && p@ == path@)
                    && old(self).detail is Some;
                if !shown {
                    *final(self) == *old(self)
                } else {
                    &&& *final(self) == (Session {
                        detail: final(self).detail,
                        edit_acl: final(self).edit_acl,
                        ..*old(self)
                    })
                    &&& final(self).detail matches Some(d) && d == (NodeDetail {
                        acl: d.acl,
                        stat: stat,
                        ..old(self).detail->0
                    }) && d.acl@ == acl@
                    &&& if old(self).editing_acl {
                        final(self).edit_acl == old(self).edit_acl
                    } else {
                        final(self).edit_acl@ == acl@
                    }
                }
            }),
    {
        let selected = match &self.selected_path {
            Some(p) => str_eq(p.as_str(), path),
            None => false,
        };
        if !selected {
            return;
        }
        let copy = copy_acl(&acl);
        match &mut self.detail {
            Some(d) => {
                d.acl = copy;
                d.stat = stat;
            },
            None => {
                return;
            },
        }
        if !self.editing_acl {
            self.edit_acl = acl;
        }
    }

    /// Takes the reply to the search of generation `generation`; replies to
    /// older searches change nothing.
    pub fn on_search_reply(&mut self, generation: u64, reply: SearchReply)
        ensures
            generation != old(self).search_generation ==> *final(self) == *old(self),
            generation == old(self).search_generation ==> match reply {
                SearchReply::Results(paths) => *final(self) == (Session {
                    search_results: paths,
                    search_in_progress: false,
                    ..*old(self)
                }),
                SearchReply::Failed(msg) => *final(self) == (Session {
                    search_in_progress: false,
                    error_message: Some(msg),
                    ..*old(self)
                }),
                SearchReply::Closed => *final(self) == (Session {
                    search_in_progress: false,
                    ..*old(self)
                }),
                SearchReply::Other => *final(self) == *old(self),
            },
    {
        if generation != self.search_generation {
            return;
        }
        match reply {
            SearchReply::Results(paths) => {
                self.search_results = paths;
                self.search_in_progress = false;
            },
            SearchReply::Failed(msg) => {
                self.search_in_progress = false;
                self.error_message = Some(msg);
            },
            SearchReply::Closed => {
                self.search_in_progress = false;
            },
            SearchReply::Other => {},
        }
    }

    /// Takes the outcome of connecting: once connected, the root is put in
    /// the tree, its children are loaded and it is selected; a failure
    /// disconnects and is reported.
    pub fn on_connect_reply(&mut self, reply: ConnectReply) -> (reqs: Vec<Request>)
        requires
            old(self).wf(),
        ensures
            final(self).wf(),
            match reply {
                ConnectReply::Connected => {
                    let id = match old(self).active_conn_id {
                        Some(i) => i,
                        None => 0,
                    };
                    &&& *final(self) == (Session {
                        connect_state: final(self).connect_state,
                        status_message: final(self).status_message,
                        tree: final(self).tree,
                        selected_folder_id: None,
                        selected_path: final(self).selected_path,
                        detail: final(self).detail,
                        editing_data: false,
                        editing_acl: false,
                        ..*old(self)
                    })
                    &&& final(self).connect_state matches ConnectState::Connected { host, conn_id }
                        && host == old(self).hosts && conn_id == id
                    &&& final(self).status_message@ == "Connected to "@ + old(self).hosts@
                    &&& if old(self).tree@.contains_key(root_path()) {
                        final(self).tree@ == old(self).tree@
                    } else {
                        &&& final(self).tree@ == old(self).tree@.insert(
                            root_path(),
                            final(self).tree@[root_path()],
                        )
                        &&& is_fresh_node(
                            final(self).tree@[root_path()],
                            root_path(),
                            root_path(),
                            true,
                        )
                    }
                    &&& final(self).selected_path matches Some(p) && p@ == root_path()
                    &&& final(self).detail matches Some(d) && is_blank_detail(d, root_path())
                    &&& request_views(reqs@) == seq![
                        RequestView::LoadChildren(root_path()),
                        RequestView::LoadDetail(root_path()),
                    ]
                },
                ConnectReply::Failed(msg) => *final(self) == (Session {
                    connect_state: ConnectState::Disconnected,
                    error_message: Some(msg),
                    ..*old(self)
                }) && reqs@.len() == 0,
                ConnectReply::Closed => {
                    &&& *final(self) == (Session {
                        connect_state: ConnectState::Disconnected,
                        error_message: final(self).error_message,
                        ..*old(self)
                    })
                    &&& final(self).error_message matches Some(m) && m@ == "Connection failed"@
                    &&& reqs@.len() == 0
                },
                ConnectReply::Other => *final(self) == *old(self) && reqs@.len() == 0,
            },
    {
        proof {
            reveal_strlit("/");
        }
        assert("/"@ =~= root_path());
        let mut reqs: Vec<Request> = Vec::new();
        match reply {
            ConnectReply::Connected => {
                let conn_id = match self.active_conn_id {
                    Some(i) => i,
                    None => 0,
                };
                self.connect_state = ConnectState::Connected { host: self.hosts.clone(), conn_id };
                let mut msg = owned("Connected to ");
                msg.append(self.hosts.as_str());
                self.status_message = msg;
                self.tree.insert_if_absent(owned("/"), TreeNode::root());
                reqs.push(Request::LoadChildren(owned("/")));
                let mut more = self.select_node("/");
                let ghost first = reqs@;
                let ghost tail = more@;
                assert(request_views(more@) == seq![RequestView::LoadDetail("/"@)]);
                assert(request_views(tail).len() == 1);
                assert(tail.len() == 1);
                assert(request_views(tail)[0] == tail[0]@);
                assert(tail[0]@ == RequestView::LoadDetail(root_path()));
                reqs.append(&mut more);
                assert(reqs@ =~= first + tail);
                assert(reqs@[1] == tail[0]);
                assert(request_views(reqs@) =~= seq![
                    RequestView::LoadChildren(root_path()),
                    RequestView::LoadDetail(root_path()),
                ]);
            },
            ConnectReply::Failed(msg) => {
                self.connect_state = ConnectState::Disconnected;
                self.error_message = Some(msg);
            },
            ConnectReply::Closed => {
                self.connect_state = ConnectState::Disconnected;
                self.error_message = Some(owned("Connection failed"));
            },
            ConnectReply::Other => {},
        }
        reqs
    }
    /// Takes the listing of the children of `path`: the node (made where
    /// missing) records them in name order, a node is made for each child
    /// not yet in the tree, and each child's metadata is requested.
    pub fn on_children(&mut self, path: &str, children: Vec<String>) -> (reqs: Vec<Request>)
        requires
            old(self).wf(),
        ensures
            final(self).wf(),
            *final(self) == (Session { tree: final(self).tree, ..*old(self) }),
            exists|sorted: Seq<String>|
                #![trigger crate::order::names_sorted(sorted)]
                crate::order::names_sorted(sorted) && sorted.to_multiset()
                    == children@.to_multiset() && {
                    let keys = child_keys(path@, sorted);
                    let t = final(self).tree@;
                    let o = old(self).tree@;
                    &&& forall|k: Seq<char>| #[trigger]
                        t.contains_key(k) <==> (o.contains_key(k) || k == path@ || keys.contains(
                            k,
                        ))
                    &&& listed_node(t[path@], node_at(o, path@), path@, sorted)
                    &&& forall|k: Seq<char>|
                        o.contains_key(k) && k != path@ ==> #[trigger] t[k] == o[k]
                    &&& forall|i: int|
                        0 <= i < keys.len() && keys[i] != path@ && !o.contains_key(keys[i])
                            ==> is_fresh_node(#[trigger] t[keys[i]], sorted[i]@, keys[i], false)
                    &&& request_views(reqs@) == keys.map_values(
                        |k: Seq<char>| RequestView::LoadStat(k),
                    )
                },
    {
        let sorted = crate::order::sort_names(children);
        let count = sorted.len() as i32;
        let mut node = match self.tree.get(path) {
            Some(n) => n.duplicate(),
            None => if crate::text::is_root(path) {
                TreeNode::root()
            } else {
                let name = crate::text::last_segment_of(path);
                let parent = match crate::text::before_last_slash_of(path) {
                    Some(p) => p,
                    None => {
                        proof {
                            reveal_strlit("/");
                        }
                        assert("/"@ =~= root_path());
                        owned("/")
                    },
                };
                TreeNode::new(name, parent.as_str())
            },
        };
        node.children = crate::tree::copy_names(&sorted);
        node.children_loaded = true;
        node.num_children = Some(count);
        self.tree.set(owned(path), node);
        let ghost t1 = self.tree@;
        let ghost keys = child_keys(path@, sorted@);
        let mut reqs: Vec<Request> = Vec::new();
        let n = sorted.len();
        let mut i: usize = 0;
        while i < n
            invariant
                n == sorted@.len(),
                i <= n,
                keys == child_keys(path@, sorted@),
                *self == (Session { tree: self.tree, ..*old(self) }),
                self.tree.wf(),
                t1.contains_key(path@),
                forall|k: Seq<char>| #[trigger]
                    self.tree@.contains_key(k) <==> (t1.contains_key(k) || exists|j: int|
                        0 <= j < i && keys[j] == k),
                forall|k: Seq<char>| #[trigger]
                    t1.contains_key(k) ==> self.tree@[k] == t1[k],
                forall|j: int|
                    0 <= j < i && !t1.contains_key(keys[j]) ==> is_fresh_node(
                        #[trigger] self.tree@[keys[j]],
                        sorted@[j]@,
                        keys[j],
                        false,
                    ),
                request_views(reqs@) == keys.take(i as int).map_values(
                    |k: Seq<char>| RequestView::LoadStat(k),
                ),
            decreases n - i,
        {
            let key = child_path(path, sorted[i].as_str());
            let fresh = TreeNode::new(sorted[i].clone(), path);
            let ghost before = self.tree@;
            let ghost before_reqs = reqs@;
            self.tree.insert_if_absent(key.clone(), fresh);
            reqs.push(Request::LoadStat(key));
            proof {
                assert(keys[i as int] == key@);
                assert forall|k: Seq<char>| #[trigger]
                    self.tree@.contains_key(k) <==> (t1.contains_key(k) || exists|j: int|
                        0 <= j < i + 1 && keys[j] == k) by {
                    if k == key@ {
                        assert(keys[i as int] == k);
                    }
                    if exists|j: int| 0 <= j < i + 1 && keys[j] == k {
                        let j = choose|j: int| 0 <= j < i + 1 && keys[j] == k;
                        if j < i {
                            assert(exists|j: int| 0 <= j < i && keys[j] == k);
                        }
                    }
                }
                assert forall|j: int|
                    0 <= j < i + 1 && !t1.contains_key(keys[j]) implies is_fresh_node(
                    #[trigger] self.tree@[keys[j]],
                    sorted@[j]@,
                    keys[j],
                    false,
                ) by {
                    if j == i {
                        if before.contains_key(key@) {
                            let j2 = choose|j2: int| 0 <= j2 < i && keys[j2] == key@;
                            assert(is_fresh_node(before[keys[j2]], sorted@[j2]@, keys[j2], false));
                            lemma_child_path_injective(path@, sorted@[j2]@, sorted@[j]@);
                        }
                    } else {
                        if keys[j] != key@ {
                            assert(self.tree@[keys[j]] == before[keys[j]]);
                        }
                    }
                }
                assert(keys.take(i + 1) =~= keys.take(i as int).push(key@));
                assert(request_views(reqs@) =~= request_views(before_reqs).push(
                    RequestView::LoadStat(key@),
                ));
            }
            i = i + 1;
        }
        proof {
            assert(keys.take(n as int) =~= keys);
            let t = self.tree@;
            let o = old(self).tree@;
            assert forall|k: Seq<char>| #[trigger]
                t.contains_key(k) <==> (o.contains_key(k) || k == path@ || keys.contains(k)) by {
                if keys.contains(k) {
                    let j = choose|j: int| 0 <= j < keys.len() && keys[j] == k;
                    assert(exists|j: int| 0 <= j < n && keys[j] == k);
                }
                if exists|j: int| 0 <= j < n && keys[j] == k {
                    let j = choose|j: int| 0 <= j < n && keys[j] == k;
                    assert(keys.contains(k));
                }
            }
            assert forall|i: int|
                0 <= i < keys.len() && keys[i] != path@ && !o.contains_key(keys[i]) implies is_fresh_node(
                #[trigger] t[keys[i]],
                sorted@[i]@,
                keys[i],
                false,
            ) by {
                assert(!t1.contains_key(keys[i]));
            }
            assert(crate::order::names_sorted(sorted@));
            assert(listed_node(t[path@], node_at(o, path@), path@, sorted@));
            assert forall|k: Seq<char>| o.contains_key(k) && k != path@ implies #[trigger] t[k] == o[k] by {
                assert(t1.contains_key(k));
                assert(t1[k] == o[k]);
            }
            assert(request_views(reqs@) == keys.map_values(|k: Seq<char>| RequestView::LoadStat(k)));
        }
        reqs
    }
    /// Takes the outcome of a change to the tree: reports it, and reloads
    /// what it touched.
    pub fn on_action_reply(&mut self, reply: ActionReply) -> (reqs: Vec<Request>)
        requires
            old(self).wf(),
        ensures
            final(self).wf(),
            match reply {
                ActionReply::Created => {
                    &&& *final(self) == (Session {
                        status_message: final(self).status_message,
                        ..*old(self)
                    })
                    &&& final(self).status_message@ == "Node created"@
                    &&& request_views(reqs@) == match old(self).selected_path {
                        Some(p) => seq![RequestView::LoadChildren(p@)],
                        None => Seq::<RequestView>::empty(),
                    }
                },
                ActionReply::Deleted => {
                    &&& final(self).status_message@ == "Node deleted"@
                    &&& match old(self).selected_path {
                        Some(p) => {
                            let parent = crate::text::parent_path_spec(p@);
                            &&& *final(self) == (Session {
                                status_message: final(self).status_message,
                                selected_path: final(self).selected_path,
                                detail: None,
                                ..*old(self)
                            })
                            &&& final(self).selected_path matches Some(q) && q@ == parent
                            &&& request_views(reqs@) == seq![RequestView::LoadChildren(parent)]
                        },
                        None => {
                            &&& *final(self) == (Session {
                                status_message: final(self).status_message,
                                ..*old(self)
                            })
                            &&& reqs@.len() == 0
                        },
                    }
                },
                ActionReply::ChildrenCleared(count) => {
                    &&& final(self).status_message@ == "Cleared "@ + crate::timefmt::digits(
                        count as nat,
                    ) + " node(s)"@
                    &&& match old(self).clear_children_target {
                        None => {
                            &&& *final(self) == (Session {
                                status_message: final(self).status_message,
                                ..*old(self)
                            })
                            &&& reqs@.len() == 0
                        },
                        Some(p) => {
                            let purged = old(self).tree@.restrict(
                                Set::new(|k: Seq<char>| crate::tree::stays_after_purge(k, p@)),
                            );
                            &&& *final(self) == (Session {
                                status_message: final(self).status_message,
                                clear_children_target: None,
                                tree: final(self).tree,
                                ..*old(self)
                            })
                            &&& if purged.contains_key(p@) {
                                &&& final(self).tree@ == purged.insert(
                                    p@,
                                    final(self).tree@[p@],
                                )
                                &&& same_node(
                                    final(self).tree@[p@],
                                    TreeNode {
                                        children: final(self).tree@[p@].children,
                                        shown_count: 0,
                                        num_children: Some(0),
                                        ..purged[p@]
                                    },
                                )
                                &&& final(self).tree@[p@].children@.len() == 0
                            } else {
                                final(self).tree@ == purged
                            }
                            &&& request_views(reqs@) == if old(self).selected_path matches Some(
                                s,
                            ) && s@ == p@ {
                                seq![RequestView::LoadChildren(p@), RequestView::LoadDetail(p@)]
                            } else {
                                seq![RequestView::LoadChildren(p@)]
                            }
                        },
                    }
                },
                ActionReply::SetData => {
                    &&& *final(self) == (Session {
                        status_message: final(self).status_message,
                        ..*old(self)
                    })
                    &&& final(self).status_message@ == "Data saved"@
                    &&& request_views(reqs@) == match old(self).selected_path {
                        Some(p) => seq![RequestView::LoadDetail(p@)],
                        None => Seq::<RequestView>::empty(),
                    }
                },
                ActionReply::SetAcl => {
                    &&& *final(self) == (Session {
                        status_message: final(self).status_message,
                        ..*old(self)
                    })
                    &&& final(self).status_message@ == "ACL saved"@
                    &&& request_views(reqs@) == match old(self).selected_path {
                        Some(p) => seq![RequestView::LoadDetail(p@)],
                        None => Seq::<RequestView>::empty(),
                    }
                },
                ActionReply::ImportDone => {
                    &&& *final(self) == (Session {
                        status_message: final(self).status_message,
                        ..*old(self)
                    })
                    &&& final(self).status_message@ == "Import completed"@
                    &&& request_views(reqs@) == seq![RequestView::LoadChildren(root_path())]
                },
                ActionReply::Failed(msg) => *final(self) == (Session {
                    error_message: Some(msg),
                    ..*old(self)
                }) && reqs@.len() == 0,
                ActionReply::Other => *final(self) == *old(self) && reqs@.len() == 0,
            },
    {
        proof {
            reveal_strlit("/");
        }
        assert("/"@ =~= root_path());
        let mut reqs: Vec<Request> = Vec::new();
        match reply {
            ActionReply::Created => {
                self.status_message = owned("Node created");
                match &self.selected_path {
                    Some(p) => {
                        reqs.push(Request::LoadChildren(p.clone()));
                        assert(request_views(reqs@) =~= seq![RequestView::LoadChildren(p@)]);
                    },
                    None => {},
                }
            },
            ActionReply::Deleted => {
                self.status_message = owned("Node deleted");
                let parent = match &self.selected_path {
                    Some(p) => Some(crate::text::parent_path(p.as_str())),
                    None => None,
                };
                match parent {
                    Some(q) => {
                        reqs.push(Request::LoadChildren(q.clone()));
                        assert(request_views(reqs@) =~= seq![RequestView::LoadChildren(q@)]);
                        self.selected_path = Some(q);
                        self.detail = None;
                    },
                    None => {},
                }
            },
            ActionReply::ChildrenCleared(count) => {
                let mut msg = owned("Cleared ");
                let num = crate::timefmt::count_string(count as u64);
                msg.append(num.as_str());
                msg.append(" node(s)");
                self.status_message = msg;
                match self.clear_children_target.take() {
                    None => {},
                    Some(path) => {
                        self.tree.purge_under(path.as_str());
                        match self.tree.get(path.as_str()) {
                            Some(n) => {
                                let mut m = n.duplicate();
                                m.children = Vec::new();
                                m.shown_count = 0;
                                m.num_children = Some(0);
                                self.tree.set(path.clone(), m);
                            },
                            None => {},
                        }
                        reqs.push(Request::LoadChildren(path.clone()));
                        let selected = match &self.selected_path {
                            Some(s) => str_eq(s.as_str(), path.as_str()),
                            None => false,
                        };
                        if selected {
                            reqs.push(Request::LoadDetail(path.clone()));
                            assert(request_views(reqs@) =~= seq![
                                RequestView::LoadChildren(path@),
                                RequestView::LoadDetail(path@),
                            ]);
                        } else {
                            assert(request_views(reqs@) =~= seq![RequestView::LoadChildren(path@)]);
                        }
                    },
                }
            },
            ActionReply::SetData => {
                self.status_message = owned("Data saved");
                match &self.selected_path {
                    Some(p) => {
                        reqs.push(Request::LoadDetail(p.clone()));
                        assert(request_views(reqs@) =~= seq![RequestView::LoadDetail(p@)]);
                    },
                    None => {},
                }
            },
            ActionReply::SetAcl => {
                self.status_message = owned("ACL saved");
                match &self.selected_path {
                    Some(p) => {
                        reqs.push(Request::LoadDetail(p.clone()));
                        assert(request_views(reqs@) =~= seq![RequestView::LoadDetail(p@)]);
                    },
                    None => {},
                }
            },
            ActionReply::ImportDone => {
                self.status_message = owned("Import completed");
                reqs.push(Request::LoadChildren(owned("/")));
                assert(request_views(reqs@) =~= seq![RequestView::LoadChildren(root_path())]);
            },
            ActionReply::Failed(msg) => {
                self.error_message = Some(msg);
            },
            ActionReply::Other => {},
        }
        reqs
    }
    /// Shows the node at `path` in the tree: expands the root and every
    /// node on the way (making those that are missing), loads the children
    /// of each that lacks them, and selects the node.
    pub fn reveal_path(&mut self, path: &str) -> (reqs: Vec<Request>)
        requires
            old(self).wf(),
        ensures
            final(self).wf(),
            *final(self) == (Session {
                tree: final(self).tree,
                selected_folder_id: None,
                selected_path: final(self).selected_path,
                detail: final(self).detail,
                editing_data: false,
                editing_acl: false,
                ..*old(self)
            }),
            final(self).selected_path matches Some(p) && p@ == path@,
            final(self).detail matches Some(d) && is_blank_detail(d, path@),
            ({
                let o = old(self).tree@;
                let t = final(self).tree@;
                let segs = path_components(path@);
                let n = segs.len() as int;
                &&& o.contains_key(root_path()) ==> same_node(
                    t[root_path()],
                    TreeNode { expanded: true, ..o[root_path()] },
                )
                &&& if path@ == root_path() {
                    &&& forall|k: Seq<char>| #[trigger] t.contains_key(k) <==> o.contains_key(k)
                    &&& forall|k: Seq<char>|
                        o.contains_key(k) && k != root_path() ==> #[trigger] t[k] == o[k]
                    &&& request_views(reqs@) == seq![RequestView::LoadDetail(path@)]
                } else {
                    &&& forall|k: Seq<char>| #[trigger]
                        t.contains_key(k) <==> (o.contains_key(k) || exists|j: int|
                            1 <= j <= n && reveal_chain(segs, j) == k)
                    &&& forall|j: int|
                        1 <= j <= n ==> {
                            let key = #[trigger] reveal_chain(segs, j);
                            if o.contains_key(key) {
                                same_node(t[key], TreeNode { expanded: true, ..o[key] })
                            } else {
                                is_fresh_node(t[key], segs[j - 1], key, true)
                            }
                        }
                    &&& forall|k: Seq<char>|
                        o.contains_key(k) && k != root_path() && !(exists|j: int|
                            1 <= j <= n && reveal_chain(segs, j) == k) ==> #[trigger] t[k] == o[k]
                    &&& request_views(reqs@) == root_load(o) + chain_loads(o, segs, n) + seq![
                        RequestView::LoadDetail(path@),
                    ]
                }
            }),
    {
        proof {
            reveal_strlit("/");
        }
        assert("/"@ =~= root_path());
        let mut reqs: Vec<Request> = Vec::new();
        let mut root_needs_load = false;
        match self.tree.get("/") {
            Some(n) => {
                let mut m = n.duplicate();
                m.expanded = true;
                root_needs_load = !m.children_loaded;
                self.tree.set(owned("/"), m);
            },
            None => {},
        }
        if crate::text::is_root(path) {
            let more = self.select_node(path);
            return more;
        }
        if root_needs_load {
            reqs.push(Request::LoadChildren(owned("/")));
        }
        let ghost o = old(self).tree@;
        let ghost t0 = self.tree@;
        assert(request_views(reqs@) =~= root_load(o));
        let segs = components_of(path);
        let ghost sv = path_components(path@);
        proof {
            crate::text::lemma_components_first(path@);
            lemma_chain_distinct(sv);
            assert forall|key: Seq<char>| loaded_in(t0, key) == loaded_in(o, key) by {}
            lemma_chain_loads_same(t0, o, sv, sv.len() as int);
        }
        let mut current = owned("/");
        let n = segs.len();
        let mut i: usize = 0;
        while i < n
            invariant
                n == segs@.len(),
                n == sv.len(),
                sv == path_components(path@),
                forall|j: int| 0 <= j < n ==> #[trigger] segs@[j]@ == sv[j],
                i <= n,
                current@ == reveal_chain(sv, i as int),
                *self == (Session { tree: self.tree, ..*old(self) }),
                self.tree.wf(),
                forall|j: int, k: int|
                    1 <= j < k <= sv.len() ==> reveal_chain(sv, j) != reveal_chain(sv, k),
                forall|k: Seq<char>| #[trigger]
                    self.tree@.contains_key(k) <==> (t0.contains_key(k) || exists|j: int|
                        1 <= j <= i && reveal_chain(sv, j) == k),
                forall|j: int|
                    1 <= j <= i ==> {
                        let key = #[trigger] reveal_chain(sv, j);
                        if t0.contains_key(key) {
                            same_node(self.tree@[key], TreeNode { expanded: true, ..t0[key] })
                        } else {
                            is_fresh_node(self.tree@[key], sv[j - 1], key, true)
                        }
                    },
                forall|k: Seq<char>|
                    t0.contains_key(k) && !(exists|j: int| 1 <= j <= i && reveal_chain(sv, j) == k)
                        ==> #[trigger] self.tree@[k] == t0[k],
                request_views(reqs@) == root_load(o) + chain_loads(t0, sv, i as int),
            decreases n - i,
        {
            let ghost before = self.tree@;
            let ghost before_reqs = reqs@;
            let ghost key = reveal_chain(sv, i + 1);
            let child = child_path(current.as_str(), segs[i].as_str());
            assert(child@ == key);
            let fresh = TreeNode::new(segs[i].clone(), current.as_str());
            proof {
                assert forall|j: int| 1 <= j <= i implies reveal_chain(sv, j) != key by {}
                if before.contains_key(key) && !t0.contains_key(key) {
                    let j = choose|j: int| 1 <= j <= i && reveal_chain(sv, j) == key;
                    assert(false);
                }
            }
            self.tree.insert_if_absent(child.clone(), fresh);
            let mut load = false;
            match self.tree.get(child.as_str()) {
                Some(nd) => {
                    let mut m = nd.duplicate();
                    m.expanded = true;
                    load = !m.children_loaded;
                    self.tree.set(child.clone(), m);
                },
                None => {},
            }
            assert(load == !loaded_in(t0, key));
            if load {
                reqs.push(Request::LoadChildren(child.clone()));
            }
            proof {
                assert(request_views(reqs@) =~= request_views(before_reqs) + if load {
                    seq![RequestView::LoadChildren(key)]
                } else {
                    Seq::<RequestView>::empty()
                });
                assert(chain_loads(t0, sv, i + 1) == chain_loads(t0, sv, i as int) + if loaded_in(
                    t0,
                    key,
                ) {
                    Seq::<RequestView>::empty()
                } else {
                    seq![RequestView::LoadChildren(key)]
                });
                assert forall|k: Seq<char>| #[trigger]
                    self.tree@.contains_key(k) <==> (t0.contains_key(k) || exists|j: int|
                        1 <= j <= i + 1 && reveal_chain(sv, j) == k) by {
                    if k == key {
                        assert(reveal_chain(sv, i + 1) == k);
                    }
                    if exists|j: int| 1 <= j <= i + 1 && reveal_chain(sv, j) == k {
                        let j = choose|j: int| 1 <= j <= i + 1 && reveal_chain(sv, j) == k;
                        if j <= i {
                            assert(exists|j: int| 1 <= j <= i && reveal_chain(sv, j) == k);
                        }
                    }
                }
                assert forall|j: int| 1 <= j <= i + 1 implies {
                    let kk = #[trigger] reveal_chain(sv, j);
                    if t0.contains_key(kk) {
                        same_node(self.tree@[kk], TreeNode { expanded: true, ..t0[kk] })
                    } else {
                        is_fresh_node(self.tree@[kk], sv[j - 1], kk, true)
                    }
                } by {
                    if j <= i {
                        assert(reveal_chain(sv, j) != key);
                    } else {
                        if !t0.contains_key(key) {
                            assert(!before.contains_key(key));
                        } else {
                            assert(before[key] == t0[key]);
                        }
                    }
                }
                assert forall|k: Seq<char>|
                    t0.contains_key(k) && !(exists|j: int|
                        1 <= j <= i + 1 && reveal_chain(sv, j) == k) implies #[trigger] self.tree@[k]
                    == t0[k] by {
                    assert(k != key);
                    assert(!(exists|j: int| 1 <= j <= i && reveal_chain(sv, j) == k));
                }
            }
            current = child;
            i = i + 1;
        }
        let mut more = self.select_node(path);
        let ghost first = reqs@;
        let ghost tail = more@;
        assert(request_views(tail).len() == 1);
        assert(request_views(tail)[0] == tail[0]@);
        reqs.append(&mut more);
        proof {
            assert(reqs@ =~= first + tail);
            assert(request_views(reqs@) =~= request_views(first) + request_views(tail));
            let t = self.tree@;
            assert forall|j: int|
                1 <= j <= n implies {
                let key = #[trigger] reveal_chain(sv, j);
                if o.contains_key(key) {
                    same_node(t[key], TreeNode { expanded: true, ..o[key] })
                } else {
                    is_fresh_node(t[key], sv[j - 1], key, true)
                }
            } by {
                let key = reveal_chain(sv, j);
                if key == root_path() {
                }
            }
            assert forall|k: Seq<char>|
                o.contains_key(k) && k != root_path() && !(exists|j: int|
                    1 <= j <= n && reveal_chain(sv, j) == k) implies #[trigger] t[k] == o[k] by {
                assert(t0[k] == o[k]);
            }
            if o.contains_key(root_path()) {
                if exists|j: int| 1 <= j <= n && reveal_chain(sv, j) == root_path() {
                    let j = choose|j: int| 1 <= j <= n && reveal_chain(sv, j) == root_path();
                    assert(reveal_chain(sv, j) == root_path());
                } else {
                    assert(t[root_path()] == t0[root_path()]);
                }
            }
        }
        reqs
    }
    /// Whether the sidebar folder `folder_id` is shown open.
    pub fn is_folder_expanded(&self, folder_id: i64) -> (b: bool)
        ensures
            b == self.expanded_folders@.contains(folder_id),
    {
        let n = self.expanded_folders.len();
        let mut i: usize = 0;
        while i < n
            invariant
                n == self.expanded_folders@.len(),
                i <= n,
                forall|k: int| 0 <= k < i ==> self.expanded_folders@[k] != folder_id,
            decreases n - i,
        {
            if self.expanded_folders[i] == folder_id {
                return true;
            }
            i = i + 1;
        }
        false
    }

    /// Opens the sidebar folder `folder_id` where it is closed, and closes
    /// it where it is open.
    pub fn toggle_resource_folder(&mut self, folder_id: i64)
        requires
            old(self).wf(),
        ensures
            final(self).wf(),
            *final(self) == (Session { expanded_folders: final(self).expanded_folders, ..*old(self) }),
            final(self).expanded_folders@.to_set() == if old(self).expanded_folders@.contains(
                folder_id,
            ) {
                old(self).expanded_folders@.to_set().remove(folder_id)
            } else {
                old(self).expanded_folders@.to_set().insert(folder_id)
            },
    {
        let ghost before = self.expanded_folders@;
        let n = self.expanded_folders.len();
        let mut i: usize = 0;
        while i < n && self.expanded_folders[i] != folder_id
            invariant
                n == self.expanded_folders@.len(),
                i <= n,
                forall|k: int| 0 <= k < i ==> self.expanded_folders@[k] != folder_id,
            decreases n - i,
        {
            i = i + 1;
        }
        if i < n {
            self.expanded_folders.remove(i);
            proof {
                let after = self.expanded_folders@;
                assert(after =~= before.remove(i as int));
                assert forall|x: i64| after.to_set().contains(x) <==> before.to_set().remove(
                    folder_id,
                ).contains(x) by {
                    if after.contains(x) {
                        let k = choose|k: int| 0 <= k < after.len() && after[k] == x;
                        if k < i {
                            assert(before[k] == x);
                            assert(x != folder_id);
                        } else {
                            assert(before[k + 1] == x);
                            assert(x != folder_id) by {
                                if x == folder_id {
                                    assert(before[i as int] == before[k + 1]);
                                }
                            }
                        }
                    }
                    if before.contains(x) && x != folder_id {
                        let k = choose|k: int| 0 <= k < before.len() && before[k] == x;
                        if k < i {
                            assert(after[k] == x);
                        } else {
                            assert(k != i);
                            assert(after[k - 1] == x);
                        }
                    }
                }
                assert(after.to_set() =~= before.to_set().remove(folder_id));
                assert forall|a: int, b: int|
                    0 <= a < after.len() && 0 <= b < after.len() && a != b implies after[a]
                    != after[b] by {
                    let a2 = if a < i {
                        a
                    } else {
                        a + 1
                    };
                    let b2 = if b < i {
                        b
                    } else {
                        b + 1
                    };
                    assert(after[a] == before[a2]);
                    assert(after[b] == before[b2]);
                }
            }
        } else {
            self.expanded_folders.push(folder_id);
            proof {
                let after = self.expanded_folders@;
                assert(after =~= before.push(folder_id));
                assert(!before.contains(folder_id));
                assert forall|x: i64| after.to_set().contains(x) <==> before.to_set().insert(
                    folder_id,
                ).contains(x) by {
                    if after.contains(x) && x != folder_id {
                        let k = choose|k: int| 0 <= k < after.len() && after[k] == x;
                        assert(before[k] == x);
                    }
                    if before.contains(x) {
                        let k = choose|k: int| 0 <= k < before.len() && before[k] == x;
                        assert(after[k] == x);
                    }
                    if x == folder_id {
                        assert(after[before.len() as int] == x);
                    }
                }
                assert(after.to_set() =~= before.to_set().insert(folder_id));
                assert forall|a: int, b: int|
                    0 <= a < after.len() && 0 <= b < after.len() && a != b implies after[a]
                    != after[b] by {
                    if a == before.len() {
                        assert(before.contains(before[b]));
                    } else if b == before.len() {
                        assert(before.contains(before[a]));
                    }
                }
            }
        }
    }

    /// Appends the entry of the new access entry form to the access list
    /// being edited, and resets the form to `world:anyone` with read
    /// permission.
    pub fn add_acl_entry(&mut self)
        ensures
            *final(self) == (Session {
                edit_acl: final(self).edit_acl,
                new_acl_scheme: final(self).new_acl_scheme,
                new_acl_id: final(self).new_acl_id,
                new_acl_perms: 1,
                ..*old(self)
            }),
            final(self).edit_acl@ == old(self).edit_acl@.push(
                AclEntry {
                    scheme: old(self).new_acl_scheme,
                    id: old(self).new_acl_id,
                    perms: old(self).new_acl_perms,
                },
            ),
            final(self).new_acl_scheme@ == "world"@,
            final(self).new_acl_id@ == "anyone"@,
    {
        let entry = AclEntry {
            scheme: self.new_acl_scheme.clone(),
            id: self.new_acl_id.clone(),
            perms: self.new_acl_perms,
        };
        self.edit_acl.push(entry);
        self.new_acl_scheme = owned("world");
        self.new_acl_id = owned("anyone");
        self.new_acl_perms = 1;
    }

    /// Drops entry `i` of the access list, while it is being edited.
    pub fn remove_acl_entry(&mut self, i: usize)
        requires
            old(self).editing_acl ==> i < old(self).edit_acl@.len(),
        ensures
            !old(self).editing_acl ==> *final(self) == *old(self),
            old(self).editing_acl ==> *final(self) == (Session {
                edit_acl: final(self).edit_acl,
                ..*old(self)
            }) && final(self).edit_acl@ == old(self).edit_acl@.remove(i as int),
    {
        if self.editing_acl {
            self.edit_acl.remove(i);
        }
    }
}

} // verus!
