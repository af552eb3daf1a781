use zk_ui::lang::Lang;
use zk_ui::profiles::ConnProfile;
use zk_ui::session::{
    str_eq, ActionReply, ConnectReply, ConnectState, Request, SearchReply, Session,
};
use zk_ui::tree::{
    shown_children, znode_has_children, znode_icon_kind, TreeNode, ZnodeIconKind, ZnodeTree,
    CHILDREN_BATCH_SIZE,
};
use zk_ui::znode::{AclEntry, CreateMode, NodeStat};

fn strings(v: &[&str]) -> Vec<String> {
    v.iter().map(|x| x.to_string()).collect()
}

fn describe(reqs: &[Request]) -> Vec<String> {
    reqs.iter()
        .map(|r| match r {
            Request::Connect { hosts, timeout_ms } => format!("connect {} {}", hosts, timeout_ms),
            Request::Disconnect => "disconnect".to_string(),
            Request::LoadChildren(p) => format!("children {}", p),
            Request::LoadStat(p) => format!("stat {}", p),
            Request::LoadDetail(p) => format!("detail {}", p),
            Request::Search { query, max_results, generation } => {
                format!("search {} {} {}", query, max_results, generation)
            }
            Request::Create { path, data, acl, mode } => {
                format!("create {} {:?} {} {:?}", path, data, acl.len(), mode)
            }
            Request::Delete { path, version } => format!("delete {} {}", path, version),
            Request::DeleteChildren(p) => format!("clear {}", p),
            Request::SetData { path, data, version } => format!("setdata {} {:?} {}", path, data, version),
            Request::SetAcl { path, acl, version } => format!("setacl {} {} {}", path, acl.len(), version),
            Request::CancelSearch => "cancel-search".to_string(),
            Request::TouchConnection(id) => format!("touch {}", id),
        })
        .collect()
}

fn stat_with(version: i32, num_children: i32) -> NodeStat {
    let mut s = NodeStat::zero();
    s.version = version;
    s.num_children = num_children;
    s
}

#[test]
fn root_and_new_nodes() {
    let r = TreeNode::root();
    assert_eq!(r.name, "/");
    assert_eq!(r.path, "/");
    assert!(r.expanded);
    assert!(!r.children_loaded);
    assert_eq!(r.shown_count, CHILDREN_BATCH_SIZE);
    assert_eq!(r.num_children, None);
    let n = TreeNode::new("b".to_string(), "/a");
    assert_eq!(n.path, "/a/b");
    assert_eq!(n.name, "b");
    assert!(!n.expanded);
    let m = TreeNode::new("x".to_string(), "/");
    assert_eq!(m.path, "/x");
}

#[test]
fn icon_kinds() {
    let mut n = TreeNode::new("a".to_string(), "/");
    assert_eq!(znode_icon_kind(&n, "/"), ZnodeIconKind::Root);
    assert_eq!(znode_icon_kind(&n, "/a"), ZnodeIconKind::Document);
    assert!(znode_has_children(&n));
    n.num_children = Some(3);
    assert_eq!(znode_icon_kind(&n, "/a"), ZnodeIconKind::ZkFolder);
    assert!(znode_has_children(&n));
    n.num_children = Some(0);
    assert_eq!(znode_icon_kind(&n, "/a"), ZnodeIconKind::Document);
    assert!(!znode_has_children(&n));
    n.num_children = None;
    n.children_loaded = true;
    assert!(!znode_has_children(&n));
    n.children = strings(&["c"]);
    assert_eq!(znode_icon_kind(&n, "/a"), ZnodeIconKind::ZkFolder);
    assert!(znode_has_children(&n));
}

#[test]
fn shown_children_are_capped() {
    let mut n = TreeNode::new("a".to_string(), "/");
    n.children = (0..30).map(|i| format!("c{}", i)).collect();
    assert_eq!(shown_children(&n), 25);
    n.shown_count = 50;
    assert_eq!(shown_children(&n), 30);
}

#[test]
fn tree_purge_keeps_parent_and_other_branches() {
    let mut t = ZnodeTree::new();
    for p in ["/", "/a", "/a/b", "/a/b/c", "/ab", "/x"] {
        t.set(p.to_string(), TreeNode::new("n".to_string(), "/"));
    }
    t.purge_under("/a");
    assert!(t.contains("/"));
    assert!(t.contains("/a"));
    assert!(!t.contains("/a/b"));
    assert!(!t.contains("/a/b/c"));
    assert!(t.contains("/ab"));
    assert!(t.contains("/x"));
    t.purge_under("/");
    assert!(t.contains("/"));
    assert!(!t.contains("/a"));
    assert!(!t.contains("/x"));
    assert_eq!(t.paths(), strings(&["/"]));
}

#[test]
fn tree_insert_if_absent_keeps_existing() {
    let mut t = ZnodeTree::new();
    let mut n = TreeNode::new("a".to_string(), "/");
    n.expanded = true;
    t.insert_if_absent("/a".to_string(), n);
    t.insert_if_absent("/a".to_string(), TreeNode::new("a".to_string(), "/"));
    assert!(t.get("/a").unwrap().expanded);
    t.clear();
    assert!(!t.contains("/a"));
}

fn connected_session() -> Session {
    let mut s = Session::new();
    let reqs = s.do_connect(7);
    assert_eq!(describe(&reqs), strings(&["connect 127.0.0.1:2181 5000"]));
    assert_eq!(s.status_message, "Connecting to 127.0.0.1:2181...");
    let reqs = s.on_connect_reply(ConnectReply::Connected);
    assert_eq!(describe(&reqs), strings(&["children /", "detail /"]));
    s
}

#[test]
fn new_session_defaults() {
    let s = Session::new();
    assert!(matches!(s.connect_state, ConnectState::Disconnected));
    assert_eq!(s.lang, Lang::Zh);
    assert_eq!(s.hosts, "127.0.0.1:2181");
    assert_eq!(s.timeout_ms, 5000);
    assert_eq!(s.new_acl_scheme, "world");
    assert_eq!(s.new_acl_id, "anyone");
    assert_eq!(s.new_acl_perms, 1);
    assert_eq!(s.create_mode, CreateMode::Persistent);
}

#[test]
fn connecting_selects_the_root() {
    let s = connected_session();
    match &s.connect_state {
        ConnectState::Connected { host, conn_id } => {
            assert_eq!(host, "127.0.0.1:2181");
            assert_eq!(*conn_id, 7);
        }
        _ => panic!("not connected"),
    }
    assert_eq!(s.status_message, "Connected to 127.0.0.1:2181");
    assert!(s.tree.contains("/"));
    assert_eq!(s.selected_path.as_deref(), Some("/"));
    assert_eq!(s.detail.as_ref().unwrap().path, "/");
    assert!(s.is_connection_root_selected(7));
    assert!(!s.is_connection_root_selected(8));
}

#[test]
fn failed_connection_is_reported() {
    let mut s = Session::new();
    s.do_connect(1);
    s.on_connect_reply(ConnectReply::Failed("Connect failed: timeout".to_string()));
    assert!(matches!(s.connect_state, ConnectState::Disconnected));
    assert_eq!(s.error_message.as_deref(), Some("Connect failed: timeout"));
    s.do_connect(1);
    s.on_connect_reply(ConnectReply::Closed);
    assert_eq!(s.error_message.as_deref(), Some("Connection failed"));
}

#[test]
fn children_listing_sorts_and_requests_stats() {
    let mut s = connected_session();
    let reqs = s.on_children("/", strings(&["b", "a"]));
    assert_eq!(describe(&reqs), strings(&["stat /a", "stat /b"]));
    let root = s.tree.get("/").unwrap();
    assert_eq!(root.children, strings(&["a", "b"]));
    assert!(root.children_loaded);
    assert_eq!(root.num_children, Some(2));
    assert!(s.tree.contains("/a"));
    assert_eq!(s.tree.get("/b").unwrap().path, "/b");
    s.on_stat("/a", Some(4));
    assert_eq!(s.tree.get("/a").unwrap().num_children, Some(4));
    s.on_stat("/b", None);
    assert_eq!(s.tree.get("/b").unwrap().num_children, Some(0));
}

#[test]
fn children_of_unknown_node_make_it() {
    let mut s = connected_session();
    let reqs = s.on_children("/x/y", strings(&["z"]));
    assert_eq!(describe(&reqs), strings(&["stat /x/y/z"]));
    let n = s.tree.get("/x/y").unwrap();
    assert_eq!(n.name, "y");
    assert_eq!(n.path, "/x/y");
    assert!(!n.expanded);
    let m = s.tree.get("/x/y/z").unwrap();
    assert_eq!(m.name, "z");
}

#[test]
fn expanding_loads_children_once() {
    let mut s = connected_session();
    s.on_children("/", strings(&["a"]));
    let reqs = s.toggle_znode_expand("/a");
    assert_eq!(describe(&reqs), strings(&["children /a"]));
    assert!(s.tree.get("/a").unwrap().expanded);
    s.on_children("/a", vec![]);
    let reqs = s.toggle_znode_expand("/a");
    assert!(reqs.is_empty());
    assert!(!s.tree.get("/a").unwrap().expanded);
    assert!(s.toggle_znode_expand("/missing").is_empty());
    let reqs = s.toggle_connection_tree_expand();
    assert!(reqs.is_empty());
    assert!(!s.tree.get("/").unwrap().expanded);
}

#[test]
fn showing_more_children() {
    let mut s = connected_session();
    s.show_more_children("/");
    assert_eq!(s.tree.get("/").unwrap().shown_count, 2 * CHILDREN_BATCH_SIZE);
}

#[test]
fn data_and_acl_replies_fill_the_detail() {
    let mut s = connected_session();
    s.on_data("/", b"hello".to_vec(), stat_with(3, 0));
    let d = s.detail.as_ref().unwrap();
    assert_eq!(d.data, "hello");
    assert_eq!(d.data_raw, b"hello".to_vec());
    assert_eq!(d.stat.version, 3);
    assert_eq!(s.edit_data, "hello");
    s.on_data("/other", b"x".to_vec(), stat_with(9, 0));
    assert_eq!(s.detail.as_ref().unwrap().data, "hello");
    s.editing_data = true;
    s.edit_data = "draft".to_string();
    s.on_data("/", vec![0xff, b'a'], stat_with(4, 0));
    assert_eq!(s.detail.as_ref().unwrap().data, "\u{fffd}a");
    assert_eq!(s.edit_data, "draft");
    let acl = vec![AclEntry { scheme: "world".into(), id: "anyone".into(), perms: 31 }];
    s.on_acl("/", acl, stat_with(5, 0));
    assert_eq!(s.detail.as_ref().unwrap().acl.len(), 1);
    assert_eq!(s.edit_acl.len(), 1);
    assert_eq!(s.detail.as_ref().unwrap().stat.version, 5);
}

#[test]
fn saving_data_and_acl() {
    let mut s = connected_session();
    s.on_data("/", b"v1".to_vec(), stat_with(2, 0));
    s.editing_data = true;
    s.edit_data = "v2".to_string();
    let reqs = s.do_save_data();
    assert_eq!(describe(&reqs), strings(&["setdata / [118, 50] 2"]));
    assert!(!s.editing_data);
    s.editing_acl = true;
    s.add_acl_entry();
    assert_eq!(s.edit_acl.len(), 1);
    assert_eq!(s.edit_acl[0].perms, 1);
    s.new_acl_perms = 7;
    s.new_acl_scheme = "digest".to_string();
    s.add_acl_entry();
    assert_eq!(s.edit_acl[1].scheme, "digest");
    assert_eq!(s.new_acl_scheme, "world");
    assert_eq!(s.new_acl_perms, 1);
    s.remove_acl_entry(0);
    assert_eq!(s.edit_acl.len(), 1);
    let reqs = s.do_save_acl();
    assert_eq!(describe(&reqs), strings(&["setacl / 1 2"]));
    assert!(!s.editing_acl);
}

#[test]
fn creating_a_node() {
    let mut s = connected_session();
    assert!(s.do_create_node().is_empty());
    s.create_name = "child".to_string();
    s.create_data = "d".to_string();
    s.create_mode = CreateMode::Ephemeral;
    s.show_create_dialog = true;
    let reqs = s.do_create_node();
    assert_eq!(describe(&reqs), strings(&["create /child [100] 1 Ephemeral"]));
    match &reqs[0] {
        Request::Create { acl, .. } => {
            assert_eq!(acl[0].scheme, "world");
            assert_eq!(acl[0].id, "anyone");
            assert_eq!(acl[0].perms, 31);
        }
        _ => panic!(),
    }
    assert!(!s.show_create_dialog);
    assert!(s.create_name.is_empty());
    assert!(s.create_data.is_empty());
}

#[test]
fn deleting_nodes() {
    let mut s = connected_session();
    assert!(s.do_delete_node().is_empty());
    assert_eq!(s.error_message.as_deref(), Some("Cannot delete root node"));
    s.select_node("/a/b");
    s.confirm_delete = true;
    let reqs = s.do_delete_node();
    assert_eq!(describe(&reqs), strings(&["delete /a/b -1"]));
    assert!(!s.confirm_delete);
    let reqs = s.on_action_reply(ActionReply::Deleted);
    assert_eq!(describe(&reqs), strings(&["children /a"]));
    assert_eq!(s.selected_path.as_deref(), Some("/a"));
    assert!(s.detail.is_none());
    assert_eq!(s.status_message, "Node deleted");
}

#[test]
fn clearing_children() {
    let mut s = connected_session();
    s.on_children("/", strings(&["a"]));
    s.on_children("/a", strings(&["b", "c"]));
    s.on_children("/a/b", strings(&["d"]));
    s.select_node("/a");
    s.confirm_clear_children = Some("/a".to_string());
    let reqs = s.do_clear_children();
    assert_eq!(describe(&reqs), strings(&["clear /a"]));
    assert!(s.confirm_clear_children.is_none());
    assert_eq!(s.clear_children_target.as_deref(), Some("/a"));
    let reqs = s.on_action_reply(ActionReply::ChildrenCleared(3));
    assert_eq!(describe(&reqs), strings(&["children /a", "detail /a"]));
    assert_eq!(s.status_message, "Cleared 3 node(s)");
    assert!(s.clear_children_target.is_none());
    assert!(s.tree.contains("/a"));
    assert!(!s.tree.contains("/a/b"));
    assert!(!s.tree.contains("/a/b/d"));
    let a = s.tree.get("/a").unwrap();
    assert!(a.children.is_empty());
    assert_eq!(a.shown_count, 0);
    assert_eq!(a.num_children, Some(0));
}

#[test]
fn other_action_replies() {
    let mut s = connected_session();
    let reqs = s.on_action_reply(ActionReply::Created);
    assert_eq!(describe(&reqs), strings(&["children /"]));
    assert_eq!(s.status_message, "Node created");
    let reqs = s.on_action_reply(ActionReply::SetData);
    assert_eq!(describe(&reqs), strings(&["detail /"]));
    assert_eq!(s.status_message, "Data saved");
    let reqs = s.on_action_reply(ActionReply::SetAcl);
    assert_eq!(describe(&reqs), strings(&["detail /"]));
    assert_eq!(s.status_message, "ACL saved");
    let reqs = s.on_action_reply(ActionReply::ImportDone);
    assert_eq!(describe(&reqs), strings(&["children /"]));
    assert_eq!(s.status_message, "Import completed");
    let reqs = s.on_action_reply(ActionReply::Failed("boom".to_string()));
    assert!(reqs.is_empty());
    assert_eq!(s.error_message.as_deref(), Some("boom"));
}

#[test]
fn revealing_a_deep_path() {
    let mut s = connected_session();
    let reqs = s.reveal_path("/a/b");
    assert_eq!(describe(&reqs), strings(&["children /", "children /a", "children /a/b", "detail /a/b"]));
    assert!(s.tree.get("/a").unwrap().expanded);
    assert!(s.tree.get("/a/b").unwrap().expanded);
    assert_eq!(s.tree.get("/a/b").unwrap().name, "b");
    assert_eq!(s.selected_path.as_deref(), Some("/a/b"));
    s.on_children("/a", strings(&["b"]));
    let reqs = s.reveal_path("/a/b");
    assert_eq!(describe(&reqs), strings(&["children /", "children /a/b", "detail /a/b"]));
    let reqs = s.reveal_path("/");
    assert_eq!(describe(&reqs), strings(&["detail /"]));
}

#[test]
fn searching_with_generations() {
    let mut s = Session::new();
    s.search_query = "  srv ".to_string();
    assert!(s.start_tree_search().is_empty());
    let mut s = connected_session();
    s.search_query = "  srv ".to_string();
    let reqs = s.start_tree_search();
    assert_eq!(describe(&reqs), strings(&["search srv 300 1"]));
    assert!(s.search_in_progress);
    s.on_search_reply(0, SearchReply::Results(strings(&["/old"])));
    assert!(s.search_results.is_empty());
    assert!(s.search_in_progress);
    s.on_search_reply(1, SearchReply::Results(strings(&["/srv"])));
    assert_eq!(s.search_results, strings(&["/srv"]));
    assert!(!s.search_in_progress);
    s.search_query = "   ".to_string();
    let reqs = s.start_tree_search();
    assert_eq!(describe(&reqs), strings(&["cancel-search"]));
    assert!(s.search_results.is_empty());
    s.search_generation = u64::MAX;
    s.search_query = "q".to_string();
    let reqs = s.start_tree_search();
    assert_eq!(describe(&reqs), strings(&["search q 300 0"]));
    let reqs = s.clear_search();
    assert_eq!(describe(&reqs), strings(&["cancel-search"]));
    assert!(s.search_query.is_empty());
}

#[test]
fn disconnecting_forgets_everything() {
    let mut s = connected_session();
    s.on_children("/", strings(&["a"]));
    s.search_results = strings(&["/a"]);
    let reqs = s.do_disconnect();
    assert_eq!(describe(&reqs), strings(&["disconnect", "cancel-search"]));
    assert!(matches!(s.connect_state, ConnectState::Disconnected));
    assert!(!s.tree.contains("/"));
    assert!(s.selected_path.is_none());
    assert!(s.detail.is_none());
    assert!(s.search_results.is_empty());
    assert_eq!(s.status_message, "Disconnected");
}

#[test]
fn connecting_from_a_profile() {
    let mut s = Session::new();
    let conn = ConnProfile {
        id: 4,
        name: "prod".into(),
        hosts: "zk1:2181".into(),
        timeout_ms: 8000,
        auth_scheme: String::new(),
        auth_credential: String::new(),
        category: String::new(),
        folder_id: None,
        position: 0,
        created_at: "2024-01-01".into(),
        last_used_at: None,
    };
    let reqs = s.connect_from_profile(&conn);
    assert_eq!(describe(&reqs), strings(&["connect zk1:2181 8000", "touch 4"]));
    assert_eq!(s.active_conn_name, "prod");
    assert_eq!(s.active_conn_id, Some(4));
}

#[test]
fn folders_selection_and_expansion() {
    let mut s = connected_session();
    s.select_folder(3);
    assert_eq!(s.selected_folder_id, Some(3));
    assert!(s.selected_path.is_none());
    assert!(s.detail.is_none());
    assert!(!s.is_folder_expanded(3));
    s.toggle_resource_folder(3);
    assert!(s.is_folder_expanded(3));
    s.toggle_resource_folder(5);
    s.toggle_resource_folder(3);
    assert!(!s.is_folder_expanded(3));
    assert!(s.is_folder_expanded(5));
}

#[test]
fn string_equality() {
    assert!(str_eq("abc", "abc"));
    assert!(!str_eq("abc", "abd"));
    assert!(!str_eq("ab", "abc"));
    assert!(str_eq("", ""));
}
