use dar::config::SortMode;
use dar::tree::{FileTree, NavigationState, NodeType, Timestamp, TreeNode};
use std::time::{Duration, SystemTime, UNIX_EPOCH};

fn make_child(path: &str, size: u64) -> TreeNode {
    TreeNode::new(path.to_string(), NodeType::File).with_size(size)
}

fn stamp(time: SystemTime) -> Timestamp {
    let nanos = match time.duration_since(UNIX_EPOCH) {
        Ok(d) => d.as_nanos() as i128,
        Err(e) => -(e.duration().as_nanos() as i128),
    };
    Timestamp {
        nanos_since_epoch: nanos,
    }
}

#[test]
fn tree_tree_root_initialized() {
    let tree = FileTree::new("/tmp".to_string());
    assert_eq!(tree.root(), 0);
    let root = tree.node(0).expect("root exists");
    assert!(root.expanded);
}

#[test]
fn tree_add_child_updates_parent() {
    let mut tree = FileTree::new("/tmp".to_string());
    let child_id = tree.add_child(0, make_child("/tmp/file", 1));
    let root_children = &tree.node(0).unwrap().children;
    assert_eq!(root_children, &[child_id]);
}

#[test]
fn tree_sorts_children_by_size() {
    let mut tree = FileTree::new("/tmp".to_string());
    let first = tree.add_child(0, make_child("/tmp/a", 10));
    let second = tree.add_child(0, make_child("/tmp/b", 2));

    tree.sort_children(0, SortMode::SizeDesc);
    assert_eq!(tree.node(0).unwrap().children, vec![first, second]);

    tree.sort_children(0, SortMode::SizeAsc);
    assert_eq!(tree.node(0).unwrap().children, vec![second, first]);
}

#[test]
fn tree_sorts_children_by_modified_time() {
    let mut tree = FileTree::new("/tmp".to_string());
    let recent = TreeNode::new("/tmp/new".to_string(), NodeType::File)
        .with_size(1)
        .with_modified(stamp(SystemTime::now()));
    let older = TreeNode::new("/tmp/old".to_string(), NodeType::File)
        .with_size(1)
        .with_modified(stamp(SystemTime::now() - Duration::from_secs(10)));

    let recent_id = tree.add_child(0, recent);
    let older_id = tree.add_child(0, older);

    tree.sort_children(0, SortMode::ModifiedTime);
    assert_eq!(tree.node(0).unwrap().children, vec![recent_id, older_id]);
}

#[test]
fn tree_navigation_state_tracks_selection() {
    let mut nav = NavigationState::default();
    assert_eq!(nav.selected, None);
    nav.select(5);
    assert_eq!(nav.selected, Some(5));
    nav.clear();
    assert!(nav.selected.is_none());
}

#[test]
fn recompute_sizes_matches_children_sum() {
    let mut tree = FileTree::new("/tmp".to_string());
    let dir = tree.add_child(0, TreeNode::new("/tmp/dir".to_string(), NodeType::Directory));
    let f1 = tree.add_child(dir, TreeNode::new("/tmp/dir/a".to_string(), NodeType::File));
    let f2 = tree.add_child(dir, TreeNode::new("/tmp/dir/b".to_string(), NodeType::File));
    if let Some(node) = tree.node_mut(f1) {
        node.size = 2;
        node.disk_size = 2;
    }
    if let Some(node) = tree.node_mut(f2) {
        node.size = 3;
        node.disk_size = 3;
    }

    tree.recompute_sizes();

    assert_eq!(tree.node(dir).unwrap().size, 5);
    assert_eq!(tree.node(0).unwrap().size, 5);
    assert!(tree.verify_size_invariants());
}

#[test]
fn verify_size_invariants_detects_mismatch() {
    let mut tree = FileTree::new("/tmp".to_string());
    let dir = tree.add_child(0, TreeNode::new("/tmp/dir".to_string(), NodeType::Directory));
    let file = tree.add_child(dir, TreeNode::new("/tmp/dir/a".to_string(), NodeType::File));
    if let Some(node) = tree.node_mut(file) {
        node.size = 10;
        node.disk_size = 10;
    }
    if let Some(node) = tree.node_mut(dir) {
        node.size = 3;
        node.disk_size = 3;
    }

    assert!(!tree.verify_size_invariants());
    tree.recompute_sizes();
    assert!(tree.verify_size_invariants());
}

#[test]
fn ensure_node_creates_missing_ancestors_once() {
    let mut tree = FileTree::new("/r".to_string());
    let deep = tree.ensure_node("/r/a/b/c".to_string(), NodeType::File);
    let len = tree.nodes().len();
    assert_eq!(len, 4);
    let again = tree.ensure_node("/r/a/b/c".to_string(), NodeType::File);
    assert_eq!(deep, again);
    assert_eq!(tree.nodes().len(), len);
    let b = tree.node_id_for_path("/r/a/b").unwrap();
    assert_eq!(tree.node(deep).unwrap().parent, Some(b));
    assert_eq!(tree.node(b).unwrap().file_type, NodeType::Directory);
}

#[test]
fn add_size_walks_up_to_the_root() {
    let mut tree = FileTree::new("/r".to_string());
    let f = tree.ensure_node("/r/a/f".to_string(), NodeType::File);
    tree.add_size(f, 7);
    tree.add_disk_size(f, 4096);
    let a = tree.node_id_for_path("/r/a").unwrap();
    assert_eq!(tree.node(f).unwrap().size, 7);
    assert_eq!(tree.node(a).unwrap().size, 7);
    assert_eq!(tree.node(0).unwrap().size, 7);
    assert_eq!(tree.node(0).unwrap().disk_size, 4096);
    tree.add_size(f, u64::MAX);
    assert_eq!(tree.node(0).unwrap().size, u64::MAX);
}

#[test]
fn sorts_children_by_name() {
    let mut tree = FileTree::new("/t".to_string());
    let b = tree.add_child(0, make_child("/t/b", 1));
    let a = tree.add_child(0, make_child("/t/a", 1));
    tree.sort_children(0, SortMode::Name);
    assert_eq!(tree.node(0).unwrap().children, vec![a, b]);
}

#[test]
fn tree_root_initialized() {
    let tree = FileTree::new("/tmp".to_string());
    assert_eq!(tree.root(), 0);
    let root = tree.node(0).expect("root exists");
    assert!(root.expanded);
}

#[test]
fn add_child_updates_parent() {
    let mut tree = FileTree::new("/tmp".to_string());
    let child_id = tree.add_child(0, make_child("/tmp/file", 1));
    let root_children = &tree.node(0).unwrap().children;
    assert_eq!(root_children, &[child_id]);
}

#[test]
fn sorts_children_by_size() {
    let mut tree = FileTree::new("/tmp".to_string());
    let first = tree.add_child(0, make_child("/tmp/a", 10));
    let second = tree.add_child(0, make_child("/tmp/b", 2));

    tree.sort_children(0, SortMode::SizeDesc);
    assert_eq!(tree.node(0).unwrap().children, vec![first, second]);

    tree.sort_children(0, SortMode::SizeAsc);
    assert_eq!(tree.node(0).unwrap().children, vec![second, first]);
}

#[test]
fn sorts_children_by_modified_time() {
    let mut tree = FileTree::new("/tmp".to_string());
    let recent = TreeNode::new("/tmp/new".to_string(), NodeType::File)
        .with_size(1)
        .with_modified(stamp(SystemTime::now()));
    let older = TreeNode::new("/tmp/old".to_string(), NodeType::File)
        .with_size(1)
        .with_modified(stamp(SystemTime::now() - Duration::from_secs(10)));

    let recent_id = tree.add_child(0, recent);
    let older_id = tree.add_child(0, older);

    tree.sort_children(0, SortMode::ModifiedTime);
    assert_eq!(tree.node(0).unwrap().children, vec![recent_id, older_id]);
}

#[test]
fn navigation_state_tracks_selection() {
    let mut nav = NavigationState::default();
    assert_eq!(nav.selected, None);
    nav.select(5);
    assert_eq!(nav.selected, Some(5));
    nav.clear();
    assert!(nav.selected.is_none());
}

#[test]
fn added_child_is_found_by_its_path() {
    let mut tree = FileTree::new("/tmp".to_string());
    let mut node = make_child("/tmp/dir", 0);
    node.children = vec![7];
    let id = tree.add_child(0, node);
    assert_eq!(tree.node_id_for_path("/tmp/dir"), Some(id));
    assert_eq!(tree.node_id_for_path("/tmp/none"), None);
}

#[test]
fn ensure_node_links_new_ancestors_collapsed() {
    let mut tree = FileTree::new("/r".to_string());
    let deep = tree.ensure_node("/r/a/b".to_string(), NodeType::File);
    let a = tree.node_id_for_path("/r/a").unwrap();
    assert_eq!(tree.node(a).unwrap().parent, Some(0));
    assert_eq!(tree.node(deep).unwrap().parent, Some(a));
    for id in 1..tree.nodes().len() {
        assert!(!tree.node(id).unwrap().expanded);
        let parent = tree.node(id).unwrap().parent.unwrap();
        let listed = tree.node(parent).unwrap().children.iter().filter(|c| **c == id).count();
        assert_eq!(listed, 1);
    }
    assert!(tree.node(0).unwrap().parent.is_none());
}

#[test]
fn recomputing_twice_changes_nothing() {
    let mut tree = FileTree::new("/r".to_string());
    let a = tree.ensure_node("/r/a/f".to_string(), NodeType::File);
    tree.node_mut(a).unwrap().size = 9;
    let g = tree.ensure_node("/r/g".to_string(), NodeType::File);
    tree.node_mut(g).unwrap().disk_size = 4096;
    tree.recompute_sizes();
    let once: Vec<(u64, u64)> = tree.nodes().iter().map(|n| (n.size, n.disk_size)).collect();
    tree.recompute_sizes();
    let twice: Vec<(u64, u64)> = tree.nodes().iter().map(|n| (n.size, n.disk_size)).collect();
    assert_eq!(once, twice);
    assert_eq!(once[0], (9, 4096));
}
