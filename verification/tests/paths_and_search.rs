use zk_ui::matching::{path_matches_query, trim};
use zk_ui::order::sort_names;
use zk_ui::search::SearchWalk;
use zk_ui::text::{
    before_last_slash_of, child_path, components_of, is_root, last_segment_of, parent_path,
};

fn s(v: &[&str]) -> Vec<String> {
    v.iter().map(|x| x.to_string()).collect()
}

#[test]
fn child_paths() {
    assert_eq!(child_path("/", "a"), "/a");
    assert_eq!(child_path("/a", "b"), "/a/b");
    assert_eq!(child_path("/a/b", "c"), "/a/b/c");
    assert_eq!(child_path("", "x"), "/x");
}

#[test]
fn root_detection() {
    assert!(is_root("/"));
    assert!(!is_root("/a"));
    assert!(!is_root(""));
    assert!(!is_root("//"));
}

#[test]
fn last_segments_and_parents() {
    assert_eq!(last_segment_of("/a/b"), "b");
    assert_eq!(last_segment_of("/a"), "a");
    assert_eq!(last_segment_of("/"), "");
    assert_eq!(last_segment_of("noslash"), "noslash");
    assert_eq!(before_last_slash_of("/a/b"), Some("/a".to_string()));
    assert_eq!(before_last_slash_of("/a"), Some("".to_string()));
    assert_eq!(before_last_slash_of("abc"), None);
    assert_eq!(parent_path("/a/b"), "/a");
    assert_eq!(parent_path("/a"), "/");
    assert_eq!(parent_path("abc"), "/");
}

#[test]
fn path_components() {
    assert_eq!(components_of("/a/b/c"), s(&["a", "b", "c"]));
    assert_eq!(components_of("//a//b"), s(&["a", "", "b"]));
    assert_eq!(components_of("/a/"), s(&["a", ""]));
    assert_eq!(components_of("/"), s(&[""]));
    assert_eq!(components_of(""), s(&[""]));
}

#[test]
fn query_matching_is_case_insensitive_on_the_path() {
    assert!(path_matches_query("/Config/Server", "server"));
    assert!(path_matches_query("/Config/Server", "config/s"));
    assert!(!path_matches_query("/Config/Server", "Server"));
    assert!(!path_matches_query("/a/b", "c"));
    assert!(path_matches_query("/a/b", ""));
}

#[test]
fn trimming_white_space() {
    assert_eq!(trim("  abc \t\n"), "abc");
    assert_eq!(trim("abc"), "abc");
    assert_eq!(trim("   "), "");
    assert_eq!(trim("\u{3000}x y\u{3000}"), "x y");
}

#[test]
fn sorting_names() {
    assert_eq!(sort_names(s(&["b", "a", "c"])), s(&["a", "b", "c"]));
    assert_eq!(sort_names(s(&["node-10", "node-2", "Node"])), s(&["Node", "node-10", "node-2"]));
    assert_eq!(sort_names(s(&["ab", "a", "", "b"])), s(&["", "a", "ab", "b"]));
    assert_eq!(sort_names(s(&["x", "x"])), s(&["x", "x"]));
    assert_eq!(sort_names(s(&["é", "z"])), s(&["z", "é"]));
}

/// Runs a search over a fixed tree, given as (path, children) pairs.
fn run_search(tree: &[(&str, &[&str])], query: &str, max: usize) -> Vec<String> {
    let mut walk = SearchWalk::start(query, max);
    let mut visited = 0;
    while let Some(path) = walk.next() {
        visited += 1;
        assert!(visited < 1000);
        let listing = tree
            .iter()
            .find(|(p, _)| *p == path)
            .map(|(_, c)| c.iter().map(|x| x.to_string()).collect());
        walk.children_listed(&path, listing);
    }
    walk.into_results()
}

const TREE: &[(&str, &[&str])] = &[
    ("/", &["zoo", "app", "config"]),
    ("/app", &["server2", "server1"]),
    ("/app/server1", &[]),
    ("/app/server2", &[]),
    ("/config", &["Server"]),
    ("/config/Server", &[]),
    ("/zoo", &[]),
];

#[test]
fn search_walks_depth_first_in_name_order() {
    assert_eq!(
        run_search(TREE, "server", 300),
        s(&["/app/server1", "/app/server2", "/config/Server"])
    );
    assert_eq!(run_search(TREE, "SERVER", 300), s(&["/app/server1", "/app/server2", "/config/Server"]));
    assert_eq!(run_search(TREE, "o", 300), s(&["/config", "/config/Server", "/zoo"]));
}

#[test]
fn search_stops_at_the_limit() {
    assert_eq!(run_search(TREE, "server", 2), s(&["/app/server1", "/app/server2"]));
    assert_eq!(run_search(TREE, "server", 0), Vec::<String>::new());
}

#[test]
fn empty_query_finds_nothing() {
    assert_eq!(run_search(TREE, "", 300), Vec::<String>::new());
}

#[test]
fn unlistable_node_is_a_leaf() {
    let tree: &[(&str, &[&str])] = &[("/", &["a"])];
    assert_eq!(run_search(tree, "a", 10), s(&["/a"]));
}
