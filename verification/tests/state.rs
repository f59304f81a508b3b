use dar::config::SortMode;
use dar::display::DisplayOptions;
use dar::scan::ScanProgress;
use dar::snapshot::ExportOptions;
use dar::state::{AppState, ScanState, StatusMessage};

fn state() -> AppState {
    AppState::new("/".to_string(), SortMode::SizeDesc)
}

#[test]
fn new_state_is_idle() {
    let state = state();
    assert_eq!(state.scan_state, ScanState::Idle);
    assert!(state.selection.is_none());
    assert_eq!(state.sort_mode, SortMode::SizeDesc);
    assert!(state.treemap_nodes.is_empty());
    assert!(state.allow_modifications);
    assert!(!state.extended_mode);
    assert_eq!(state.export_options, ExportOptions::default());
    assert_eq!(state.display_options, DisplayOptions::default());
}

#[test]
fn selection_and_scroll_updated() {
    let mut state = state();
    state.select_node(2);
    assert_eq!(state.selection, Some(2));
    state.set_scroll_offset(10);
    assert_eq!(state.scroll_offset, 10);
    state.clear_selection();
    assert!(state.selection.is_none());
}

#[test]
fn scan_state_transitions() {
    let mut state = state();
    state.mark_scan_progress(ScanProgress {
        scanned: 1,
        errors: 0,
    });
    assert!(matches!(state.scan_state, ScanState::Running(_)));
    state.mark_scan_complete();
    assert_eq!(state.scan_state, ScanState::Completed);
    state.mark_scan_error("oops".to_string());
    assert!(matches!(state.scan_state, ScanState::Error(_)));
}

#[test]
fn status_message_behaves() {
    let mut state = state();
    state.update_status(StatusMessage::Custom("hello".to_string()));
    assert_eq!(
        state.status_message,
        Some(StatusMessage::Custom("hello".to_string()))
    );
    assert_eq!(state.status_text(), "hello");
    state.clear_status();
    assert!(state.status_message.is_none());
}

#[test]
fn status_text_is_ready_without_message() {
    let state = state();
    assert_eq!(state.status_text(), "ready");
}

#[test]
fn status_messages_render_their_text() {
    assert_eq!(
        StatusMessage::ScanProgress { scanned: 120, errors: 3 }.to_text(),
        "scanned 120 entries, 3 errors"
    );
    assert_eq!(
        StatusMessage::SortMode(SortMode::ModifiedTime).to_text(),
        "sort mode: modified_time"
    );
    assert_eq!(StatusMessage::HiddenFilesVisible(false).to_text(), "hidden files hidden");
    assert_eq!(
        StatusMessage::DeleteConfirmation("/tmp/x".to_string()).to_text(),
        "press d again to delete /tmp/x"
    );
    assert_eq!(
        StatusMessage::OpenResult {
            path: "/a".to_string(),
            outcome: dar::state::StatusOutcome::failure("denied".to_string())
        }
        .to_text(),
        "open failed for /a: denied"
    );
    assert_eq!(
        StatusMessage::ExportResult {
            path: "/a".to_string(),
            outcome: dar::state::StatusOutcome::Success
        }
        .to_text(),
        "scan exported to /a"
    );
}

#[test]
fn spinner_wraps_at_modulo() {
    let mut state = state();
    state.advance_spinner(3);
    state.advance_spinner(3);
    assert_eq!(state.spinner_phase, 2);
    state.advance_spinner(3);
    assert_eq!(state.spinner_phase, 0);
    state.advance_spinner(0);
    assert_eq!(state.spinner_phase, 0);
}

#[test]
fn toggles_flip_and_wrap_revisions() {
    let mut state = state();
    state.toggle_size_mode();
    assert_eq!(state.size_mode, dar::state::SizeDisplayMode::Disk);
    state.toggle_size_mode();
    assert_eq!(state.size_mode, dar::state::SizeDisplayMode::Apparent);
    state.ui_revision = u64::MAX;
    state.mark_ui_dirty();
    assert_eq!(state.ui_revision(), 0);
}
