use zk_ui::subtree::{SubtreeWalk, WalkStep};

// A small tree: children of each path, in the order the server lists them.
fn children_of(path: &str) -> Vec<String> {
    let names: &[&str] = match path {
        "/app" => &["b", "a"],
        "/app/b" => &["x"],
        "/" => &["app"],
        _ => &[],
    };
    names.iter().map(|s| s.to_string()).collect()
}

fn run(start: &str) -> (Vec<String>, Vec<String>) {
    let mut walk = SubtreeWalk::start(start);
    let mut listed = Vec::new();
    let mut visited = Vec::new();
    while let Some(step) = walk.next() {
        match step {
            WalkStep::List(p) => {
                listed.push(p.clone());
                walk.children_listed(children_of(&p));
            }
            WalkStep::Visit(p) => visited.push(p),
        }
    }
    (listed, visited)
}

#[test]
fn subtree_is_visited_children_first() {
    let (listed, visited) = run("/app");
    assert_eq!(listed, vec!["/app", "/app/b", "/app/b/x", "/app/a"]);
    assert_eq!(visited, vec!["/app/b/x", "/app/b", "/app/a", "/app"]);
}

#[test]
fn walk_from_the_root() {
    let (listed, visited) = run("/");
    assert_eq!(listed, vec!["/", "/app", "/app/b", "/app/b/x", "/app/a"]);
    assert_eq!(visited, vec!["/app/b/x", "/app/b", "/app/a", "/app", "/"]);
}

#[test]
fn leaf_walk_lists_then_visits() {
    let (listed, visited) = run("/leaf");
    assert_eq!(listed, vec!["/leaf"]);
    assert_eq!(visited, vec!["/leaf"]);
}

#[test]
fn listing_twice_changes_nothing() {
    let mut walk = SubtreeWalk::start("/n");
    assert!(matches!(walk.next(), Some(WalkStep::List(ref p)) if p == "/n"));
    walk.children_listed(vec!["c".to_string()]);
    // the innermost open path is now "/n/c", not yet listed
    assert!(matches!(walk.next(), Some(WalkStep::List(ref p)) if p == "/n/c"));
    walk.children_listed(vec![]);
    walk.children_listed(vec!["ignored".to_string()]);
    assert!(matches!(walk.next(), Some(WalkStep::Visit(ref p)) if p == "/n/c"));
    assert!(matches!(walk.next(), Some(WalkStep::Visit(ref p)) if p == "/n"));
    assert!(walk.next().is_none());
}

#[test]
fn one_visit_per_path_given() {
    let (listed, visited) = run("/app");
    let children_total: usize = listed.iter().map(|p| children_of(p).len()).sum();
    assert_eq!(visited.len(), 1 + children_total);
    assert_eq!(visited.len(), 4);
}
