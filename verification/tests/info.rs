use dar::config::SortMode;
use dar::info::{format_mtime, format_node_metadata, info_source_path, selected_info_line, FileFacts};
use dar::state::AppState;
use dar::tree::{NodeMetadata, NodeType, Timestamp, TreeNode};
use dar::view::treemap_scope_name;

fn state_with_file() -> (AppState, usize) {
    let mut state = AppState::new("/".to_string(), SortMode::SizeDesc);
    let id = state.tree.add_child(0, TreeNode::new("/tmp/dar-info".to_string(), NodeType::File));
    (state, id)
}

fn at(secs: i128) -> Option<Timestamp> {
    Some(Timestamp { nanos_since_epoch: secs * 1_000_000_000 + 123 })
}

#[test]
fn selected_info_reports_filesystem_facts() {
    let (mut state, id) = state_with_file();
    state.selection = Some(id);
    assert_eq!(info_source_path(&state), Some("/tmp/dar-info".to_string()));
    let facts = FileFacts::Unix {
        mode: 0o100644,
        uid: 1000,
        gid: 100,
        inode: 42,
        nlink: 1,
        modified: at(1_700_000_000),
        ctime: 1_700_000_001,
    };
    let info = selected_info_line(&state, true, Some(facts));
    assert_eq!(info, "info: mode=644 uid=1000 gid=100 inode=42 nlink=1 mtime=1700000000 ctime=1700000001");
    assert!(info.contains("mtime="));
    assert!(info.contains("uid="));
    let other = FileFacts::Other { readonly: true, modified: None };
    assert_eq!(selected_info_line(&state, false, Some(other)), "info: readonly=true mtime=-");
    assert_eq!(
        selected_info_line(&state, true, None),
        "info: metadata unavailable for /tmp/dar-info"
    );
}

#[test]
fn selected_info_without_selection_or_node() {
    let (mut state, _) = state_with_file();
    state.selection = None;
    assert_eq!(selected_info_line(&state, true, None), "info: no selection");
    assert_eq!(info_source_path(&state), None);
    state.selection = Some(99);
    assert_eq!(selected_info_line(&state, true, None), "info: no node");
}

#[test]
fn extended_mode_uses_collected_metadata() {
    let (mut state, id) = state_with_file();
    state.selection = Some(id);
    state.set_extended_mode(true);
    state.tree.set_node_metadata(
        id,
        NodeMetadata { modified: at(5), permissions: Some(0o755), uid: Some(0), gid: Some(7) },
    );
    let facts = FileFacts::Other { readonly: false, modified: None };
    assert_eq!(selected_info_line(&state, true, Some(facts)), "info: mode=755 uid=0 gid=7 mtime=5");
    assert_eq!(selected_info_line(&state, false, Some(facts)), "info: mode=755 mtime=5");
    let node = state.tree.node(id).unwrap();
    assert_eq!(format_node_metadata(node, true), Some("info: mode=755 uid=0 gid=7 mtime=5".to_string()));
}

#[test]
fn node_metadata_needs_every_unix_field() {
    let mut node = TreeNode::new("/x".to_string(), NodeType::File);
    node.permissions = Some(0o600);
    node.uid = Some(1);
    assert_eq!(format_node_metadata(&node, true), None);
    assert_eq!(format_node_metadata(&node, false), Some("info: mode=600 mtime=-".to_string()));
    node.gid = Some(2);
    node.modified = Some(Timestamp { nanos_since_epoch: -5 });
    assert_eq!(format_node_metadata(&node, true), Some("info: mode=600 uid=1 gid=2 mtime=-".to_string()));
}

#[test]
fn negative_status_change_time_is_signed() {
    let (mut state, id) = state_with_file();
    state.selection = Some(id);
    let facts = FileFacts::Unix { mode: 0o40755, uid: 0, gid: 0, inode: 2, nlink: 3, modified: None, ctime: -12 };
    assert_eq!(
        selected_info_line(&state, true, Some(facts)),
        "info: mode=755 uid=0 gid=0 inode=2 nlink=3 mtime=- ctime=-12"
    );
}

#[test]
fn mtime_is_labelled_in_seconds() {
    assert_eq!(format_mtime(at(12)), "mtime:12s");
    assert_eq!(format_mtime(Some(Timestamp { nanos_since_epoch: 999_999_999 })), "mtime:0s");
    assert_eq!(format_mtime(Some(Timestamp { nanos_since_epoch: -1 })), "mtime:-");
    assert_eq!(format_mtime(None), "mtime:-");
}

#[test]
fn treemap_is_titled_by_the_root() {
    let state = AppState::new("/srv/data".to_string(), SortMode::SizeDesc);
    assert_eq!(treemap_scope_name(&state), "data");
}
