use dar::config::SortMode;
use dar::events::{
    adjust_ancestors_after_rescan, finish_delete, finish_rescan, handle_input_action, next_sort_mode,
    process_scan_event, InputEffect,
};
use dar::input::InputAction;
use dar::scan::{ScanActivity, ScanBatch, ScanEvent, ScanNode, ScanProgress};
use dar::state::{AppState, ScanState, StatusMessage};
use dar::tree::{NodeType, TreeNode};

fn default_sort_mode() -> SortMode {
    SortMode::SizeDesc
}

fn sample_state() -> AppState {
    let mut state = AppState::new("/".to_string(), default_sort_mode());
    let child = TreeNode::new("/child".to_string(), NodeType::File);
    state.tree.add_child(0, child);
    state.selection = Some(0);
    state
}

fn file_node(path: &str, size: u64) -> ScanNode {
    ScanNode {
        path: path.to_string(),
        kind: NodeType::File,
        size,
        disk_size: size,
        modified: None,
        permissions: None,
        uid: None,
        gid: None,
    }
}

#[test]
fn event_move_down_moves_selection() {
    let mut state = sample_state();
    handle_input_action(InputAction::MoveDown, &mut state);
    assert_eq!(state.selection, Some(1));
}

#[test]
fn event_move_up_wraps_to_root() {
    let mut state = sample_state();
    state.selection = Some(1);
    handle_input_action(InputAction::MoveUp, &mut state);
    assert_eq!(state.selection, Some(0));
}

#[test]
fn event_select_toggles_directory_expansion() {
    let mut state = AppState::new("/".to_string(), default_sort_mode());
    let dir_id = state.tree.add_child(
        0,
        TreeNode::new("/dir".to_string(), NodeType::Directory).collapsed(),
    );
    state.selection = Some(dir_id);

    handle_input_action(InputAction::Select, &mut state);
    assert!(state.tree.node(dir_id).unwrap().expanded);

    handle_input_action(InputAction::Select, &mut state);
    assert!(!state.tree.node(dir_id).unwrap().expanded);
}

#[test]
fn event_delete_action_first_press_requests_confirmation() {
    let mut state = sample_state();
    state.selection = Some(1);
    handle_input_action(InputAction::Delete, &mut state);
    assert_eq!(state.pending_delete, Some(1));
}

#[test]
fn event_adjust_ancestors_updates_parent_sizes() {
    let mut state = AppState::new("/".to_string(), default_sort_mode());
    let dir_id = state.tree.add_child(
        0,
        TreeNode::new("/dir".to_string(), NodeType::Directory).with_size(10),
    );
    if let Some(root) = state.tree.node_mut(0) {
        root.size = 10;
    }
    adjust_ancestors_after_rescan(&mut state, Some(0), 10, 25);
    assert_eq!(state.tree.node(0).unwrap().size, 25);
    assert_eq!(dir_id, 1);
}

#[test]
fn event_next_sort_mode_cycles() {
    assert_eq!(next_sort_mode(SortMode::SizeDesc), SortMode::SizeAsc);
    assert_eq!(next_sort_mode(SortMode::SizeAsc), SortMode::Name);
    assert_eq!(next_sort_mode(SortMode::Name), SortMode::ModifiedTime);
    assert_eq!(next_sort_mode(SortMode::ModifiedTime), SortMode::SizeDesc);
}

#[test]
fn controller_move_down_moves_selection() {
    let mut state = sample_state();
    handle_input_action(InputAction::MoveDown, &mut state);
    assert_eq!(state.selection, Some(1));
}

#[test]
fn controller_move_up_wraps_to_root() {
    let mut state = sample_state();
    state.selection = Some(1);
    handle_input_action(InputAction::MoveUp, &mut state);
    assert_eq!(state.selection, Some(0));
}

#[test]
fn controller_select_toggles_directory_expansion() {
    let mut state = AppState::new("/".to_string(), default_sort_mode());
    let dir_id = state.tree.add_child(
        0,
        TreeNode::new("/dir".to_string(), NodeType::Directory).collapsed(),
    );
    state.selection = Some(dir_id);

    handle_input_action(InputAction::Select, &mut state);
    assert!(state.tree.node(dir_id).unwrap().expanded);

    handle_input_action(InputAction::Select, &mut state);
    assert!(!state.tree.node(dir_id).unwrap().expanded);
}

#[test]
fn controller_delete_action_first_press_requests_confirmation() {
    let mut state = sample_state();
    state.selection = Some(1);
    handle_input_action(InputAction::Delete, &mut state);
    assert_eq!(state.pending_delete, Some(1));
}

#[test]
fn toggle_treemap_updates_visibility() {
    let mut state = sample_state();
    let initial = state.treemap_visible;

    handle_input_action(InputAction::ToggleTreemap, &mut state);

    assert_ne!(state.treemap_visible, initial);
    let expected = if state.treemap_visible {
        "treemap panel shown"
    } else {
        "treemap panel hidden"
    };
    assert_eq!(state.status_message.unwrap().to_text(), expected);
}

#[test]
fn controller_adjust_ancestors_updates_parent_sizes() {
    let mut state = AppState::new("/".to_string(), default_sort_mode());
    let dir_id = state.tree.add_child(
        0,
        TreeNode::new("/dir".to_string(), NodeType::Directory).with_size(10),
    );
    if let Some(root) = state.tree.node_mut(0) {
        root.size = 10;
    }
    adjust_ancestors_after_rescan(&mut state, Some(0), 10, 25);
    assert_eq!(state.tree.node(0).unwrap().size, 25);
    assert_eq!(dir_id, 1);
}

#[test]
fn controller_next_sort_mode_cycles() {
    assert_eq!(next_sort_mode(SortMode::SizeDesc), SortMode::SizeAsc);
    assert_eq!(next_sort_mode(SortMode::SizeAsc), SortMode::Name);
    assert_eq!(next_sort_mode(SortMode::Name), SortMode::ModifiedTime);
    assert_eq!(next_sort_mode(SortMode::ModifiedTime), SortMode::SizeDesc);
}

#[test]
fn batch_updates_root_size() {
    let mut state = AppState::new("/".to_string(), default_sort_mode());
    let nodes = vec![file_node("/a", 2048), file_node("/dir/b", 4096)];
    let batch = ScanBatch {
        nodes,
        progress: None,
        activity: Some(ScanActivity::default()),
    };
    process_scan_event(&mut state, ScanEvent::Batch(batch));
    if matches!(state.scan_state, ScanState::Completed) {
        process_scan_event(&mut state, ScanEvent::Completed);
    }
    let root = state.tree.node(0).unwrap();
    assert_eq!(root.size, 2048 + 4096);
    assert!(state.tree.verify_size_invariants());
}

#[test]
fn batch_preserves_parent_child_sum() {
    let mut state = AppState::new("/".to_string(), default_sort_mode());
    let nodes = vec![file_node("/dir/a", 1024), file_node("/dir/b", 2048)];
    let batch = ScanBatch {
        nodes,
        progress: Some(ScanProgress {
            scanned: 2,
            errors: 0,
        }),
        activity: Some(ScanActivity::default()),
    };
    process_scan_event(&mut state, ScanEvent::Batch(batch));
    process_scan_event(&mut state, ScanEvent::Completed);
    assert!(state.tree.verify_size_invariants());
    let parent = state.tree.node(0).unwrap().children[0];
    assert_eq!(state.tree.node(parent).unwrap().size, 3072);
}

#[test]
fn multi_level_batch_sums() {
    let mut state = AppState::new("/".to_string(), default_sort_mode());
    let nodes = vec![file_node("/dir/sub/file1", 4096), file_node("/dir/sub/file2", 2048)];
    let batch = ScanBatch {
        nodes,
        progress: None,
        activity: Some(ScanActivity::default()),
    };
    process_scan_event(&mut state, ScanEvent::Batch(batch));
    process_scan_event(&mut state, ScanEvent::Completed);
    assert!(state.tree.verify_size_invariants());
    let dir = state.tree.node_id_for_path("/dir").unwrap();
    let sub = state.tree.node_id_for_path("/dir/sub").unwrap();
    assert_eq!(state.tree.node(sub).unwrap().size, 6144);
    assert_eq!(state.tree.node(dir).unwrap().size, 6144);
}

#[test]
fn second_delete_press_asks_to_remove_and_success_marks_node() {
    let mut state = sample_state();
    state.selection = Some(1);
    handle_input_action(InputAction::Delete, &mut state);
    let effect = handle_input_action(InputAction::Delete, &mut state);
    assert_eq!(
        effect,
        InputEffect::DeletePath {
            node_id: 1,
            path: "/child".to_string()
        }
    );
    finish_delete(&mut state, 1, "/child".to_string(), Ok(()));
    let node = state.tree.node(1).unwrap();
    assert_eq!(node.name, "\u{2716} child");
    assert_eq!(node.size, 0);
    assert_eq!(state.pending_delete, None);
    assert_eq!(state.status_message, Some(StatusMessage::DeleteSuccess("/child".to_string())));
}

#[test]
fn failed_delete_reports_error() {
    let mut state = sample_state();
    finish_delete(&mut state, 1, "/child".to_string(), Err("busy".to_string()));
    assert_eq!(state.scan_state, ScanState::Error("delete failed for /child: busy".to_string()));
    assert_eq!(state.status_message, Some(StatusMessage::DeleteFailure("/child".to_string())));
}

#[test]
fn read_only_scan_refuses_changes() {
    let mut state = sample_state();
    state.allow_modifications = false;
    let effect = handle_input_action(InputAction::Delete, &mut state);
    assert_eq!(effect, InputEffect::Nothing);
    assert_eq!(state.status_message, Some(StatusMessage::ImportReadOnly));
}

#[test]
fn rescan_moves_ancestor_sizes() {
    let mut state = AppState::new("/".to_string(), default_sort_mode());
    let dir = state.tree.add_child(0, TreeNode::new("/d".to_string(), NodeType::Directory));
    let f = state.tree.add_child(dir, TreeNode::new("/d/f".to_string(), NodeType::File).with_size(10));
    state.tree.recompute_sizes();
    state.selection = Some(f);
    let effect = handle_input_action(InputAction::Rescan, &mut state);
    assert_eq!(
        effect,
        InputEffect::MeasurePath {
            node_id: f,
            path: "/d/f".to_string(),
            is_directory: false
        }
    );
    finish_rescan(&mut state, f, "/d/f".to_string(), Ok(4));
    assert_eq!(state.tree.node(f).unwrap().size, 4);
    assert_eq!(state.tree.node(dir).unwrap().size, 4);
    assert_eq!(state.tree.node(0).unwrap().size, 4);
}

#[test]
fn filter_keys_build_and_apply_query() {
    let mut state = sample_state();
    handle_input_action(InputAction::StartFilter, &mut state);
    assert!(state.filter.prompt_active);
    handle_input_action(InputAction::FilterChar('c'), &mut state);
    handle_input_action(InputAction::FilterChar('x'), &mut state);
    handle_input_action(InputAction::FilterBackspace, &mut state);
    handle_input_action(InputAction::ApplyFilter, &mut state);
    assert_eq!(state.filter.query, "c");
    assert!(state.filter.active);
    assert!(!state.filter.prompt_active);
    assert_eq!(state.status_message, Some(StatusMessage::FilterActive("c".to_string())));
}

#[test]
fn start_scan_only_when_not_running() {
    let mut state = sample_state();
    let effect = handle_input_action(InputAction::StartScan, &mut state);
    assert_eq!(effect, InputEffect::StartScan);
    assert_eq!(state.scan_state, ScanState::Running(ScanProgress { scanned: 0, errors: 0 }));
    let again = handle_input_action(InputAction::StartScan, &mut state);
    assert_eq!(again, InputEffect::Nothing);
}

#[test]
fn scan_error_event_marks_state() {
    let mut state = sample_state();
    process_scan_event(
        &mut state,
        ScanEvent::Error(dar::scan::ScanError {
            path: "/x".to_string(),
            message: "denied".to_string(),
        }),
    );
    assert_eq!(state.scan_state, ScanState::Error("/x: denied".to_string()));
}

#[test]
fn completed_scan_keeps_every_entry_with_its_kind() {
    let mut state = AppState::new("/".to_string(), default_sort_mode());
    let mut link = file_node("/dir/link", 0);
    link.kind = NodeType::Symlink;
    let nodes = vec![file_node("/dir/a", 10), link, file_node("/b", 5)];
    let batch = ScanBatch {
        nodes,
        progress: None,
        activity: None,
    };
    process_scan_event(&mut state, ScanEvent::Batch(batch));
    process_scan_event(&mut state, ScanEvent::Completed);
    let a = state.tree.node_id_for_path("/dir/a").unwrap();
    let link = state.tree.node_id_for_path("/dir/link").unwrap();
    let b = state.tree.node_id_for_path("/b").unwrap();
    let dir = state.tree.node_id_for_path("/dir").unwrap();
    assert_eq!(state.tree.node(a).unwrap().file_type, NodeType::File);
    assert_eq!(state.tree.node(link).unwrap().file_type, NodeType::Symlink);
    assert_eq!(state.tree.node(dir).unwrap().file_type, NodeType::Directory);
    assert_eq!(state.tree.node(a).unwrap().size, 10);
    assert_eq!(state.tree.node(b).unwrap().size, 5);
    assert_eq!(state.tree.node(dir).unwrap().size, 10);
    assert_eq!(state.tree.node(0).unwrap().size, 15);
    assert_eq!(state.tree.node(a).unwrap().parent, Some(dir));
    assert_eq!(state.tree.node(link).unwrap().parent, Some(dir));
    assert_eq!(state.tree.node(dir).unwrap().parent, Some(0));
    assert_eq!(state.tree.node(b).unwrap().parent, Some(0));
}
