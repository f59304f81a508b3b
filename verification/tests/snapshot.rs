use dar::config::{load, Config, ConfigError, ConfigLoad, SortMode};
use dar::snapshot::{import_order, snapshot_entries, tree_from_entries, SnapshotEntry};
use dar::tree::{FileTree, NodeType, TreeNode};

fn entry(path: &str, kind: NodeType, size: u64, expanded: bool) -> SnapshotEntry {
    SnapshotEntry { path: path.to_string(), kind, size, disk_size: size * 2, expanded }
}

#[test]
fn export_then_import_roundtrip() {
    let root = "/tmp/dar-snap-root".to_string();
    let mut tree = FileTree::new(root.clone());
    let child = tree.add_child(0, TreeNode::new(format!("{root}/child"), NodeType::File));
    if let Some(node) = tree.node_mut(child) {
        node.size = 42;
        node.disk_size = 4096;
    }
    let entries = snapshot_entries(&tree);
    let imported = tree_from_entries(entries, root.clone());
    assert!(imported.nodes().iter().any(|n| n.path.ends_with("child")));
    let id = imported.node_id_for_path(&format!("{root}/child")).unwrap();
    assert_eq!(imported.node(id).unwrap().size, 42);
    assert_eq!(imported.node(id).unwrap().disk_size, 4096);
}

#[test]
fn import_orders_entries_by_depth_then_position() {
    let entries = vec![
        entry("/a/b/c", NodeType::File, 1, false),
        entry("/a", NodeType::Directory, 2, true),
        entry("/a/x", NodeType::File, 3, false),
        entry("/a/b", NodeType::Directory, 4, false),
    ];
    assert_eq!(import_order(&entries), vec![1, 2, 3, 0]);
}

#[test]
fn import_builds_missing_ancestors_and_keeps_the_last_sizes() {
    let entries = vec![
        entry("/a/b/c", NodeType::File, 1, false),
        entry("/a", NodeType::Directory, 2, true),
        entry("/a/b/c", NodeType::File, 9, false),
    ];
    let tree = tree_from_entries(entries, "/fallback".to_string());
    assert_eq!(tree.node(0).unwrap().path, "/a");
    assert_eq!(tree.node(0).unwrap().size, 2);
    assert!(tree.node(0).unwrap().expanded);
    let b = tree.node_id_for_path("/a/b").unwrap();
    assert_eq!(tree.node(b).unwrap().file_type, NodeType::Directory);
    let c = tree.node_id_for_path("/a/b/c").unwrap();
    assert_eq!(tree.node(c).unwrap().size, 9);
    assert_eq!(tree.node(c).unwrap().disk_size, 18);
    assert_eq!(tree.nodes().len(), 3);
}

#[test]
fn empty_snapshot_keeps_the_default_root() {
    let tree = tree_from_entries(Vec::new(), "/fallback".to_string());
    assert_eq!(tree.nodes().len(), 1);
    assert_eq!(tree.node(0).unwrap().path, "/fallback");
}

fn config_with_mode(mode: SortMode) -> Config {
    let mut c = Config::default();
    c.sorting.mode = mode;
    c
}

#[test]
fn config_defaults_when_ignored() {
    let l = load(true, vec![("/etc/x".to_string(), Ok(config_with_mode(SortMode::Name)))]);
    assert_eq!(l.config, Config::default());
    assert_eq!(l.config_path, None);
    assert_eq!(l.source_description(), "defaults");
}

#[test]
fn config_later_files_win() {
    let l = load(
        false,
        vec![
            ("/etc/a".to_string(), Ok(config_with_mode(SortMode::Name))),
            ("/home/b".to_string(), Ok(config_with_mode(SortMode::SizeAsc))),
        ],
    );
    assert_eq!(l.config.sorting.mode, SortMode::SizeAsc);
    assert_eq!(l.source_description(), "from /home/b");
    assert!(l.error().is_none());
}

#[test]
fn config_first_error_is_kept_until_a_file_loads() {
    let bad = |p: &str| ConfigError::Decode { path: p.to_string(), message: "bad".to_string() };
    let l: ConfigLoad = load(
        false,
        vec![
            ("/etc/a".to_string(), Err(bad("/etc/a"))),
            ("/etc/b".to_string(), Err(bad("/etc/b"))),
        ],
    );
    assert_eq!(l.error, Some(bad("/etc/a")));
    assert_eq!(l.config_path, Some("/etc/a".to_string()));
    assert_eq!(l.config, Config::default());
    let l = load(
        false,
        vec![
            ("/etc/a".to_string(), Err(bad("/etc/a"))),
            ("/etc/b".to_string(), Ok(config_with_mode(SortMode::Name))),
        ],
    );
    assert!(l.error.is_none());
    assert_eq!(l.config_path, Some("/etc/b".to_string()));
    let l = load(
        false,
        vec![
            ("/etc/a".to_string(), Ok(config_with_mode(SortMode::Name))),
            ("/etc/b".to_string(), Err(bad("/etc/b"))),
        ],
    );
    assert_eq!(l.config.sorting.mode, SortMode::Name);
    assert_eq!(l.config_path, Some("/etc/b".to_string()));
    assert_eq!(l.error().unwrap().to_text(), "failed to parse config file /etc/b: bad");
}

#[test]
fn roundtrip_keeps_kinds_and_parent_paths() {
    let root = "/r".to_string();
    let mut tree = FileTree::new(root.clone());
    let dir = tree.ensure_node("/r/d".to_string(), NodeType::Directory);
    let link = tree.ensure_node("/r/d/l".to_string(), NodeType::Symlink);
    let file = tree.ensure_node("/r/f".to_string(), NodeType::File);
    let entries = snapshot_entries(&tree);
    let imported = tree_from_entries(entries, root.clone());
    for (path, kind, parent) in [("/r/d", NodeType::Directory, "/r"), ("/r/d/l", NodeType::Symlink, "/r/d"), ("/r/f", NodeType::File, "/r")] {
        let id = imported.node_id_for_path(path).unwrap();
        let node = imported.node(id).unwrap();
        assert_eq!(node.file_type, kind);
        let p = imported.node(node.parent.unwrap()).unwrap();
        assert_eq!(p.path, parent);
    }
    assert_eq!(tree.node(link).unwrap().parent, Some(dir));
    assert_eq!(tree.node(file).unwrap().parent, Some(0));
}
