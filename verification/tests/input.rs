use dar::input::{InputAction, InputState, KeyCode, KeyEvent};

fn event(code: KeyCode) -> KeyEvent {
    KeyEvent::new(code, 0)
}

#[test]
fn gg_triggers_jump_top() {
    let mut state = InputState::new();
    assert_eq!(state.process_key(event(KeyCode::Char('g'))), InputAction::NoAction);
    assert_eq!(state.process_key(event(KeyCode::Char('g'))), InputAction::JumpTop);
}

#[test]
fn singly_g_does_not_jump() {
    let mut state = InputState::new();
    assert_eq!(state.process_key(event(KeyCode::Char('g'))), InputAction::NoAction);
    assert_eq!(state.process_key(event(KeyCode::Char('h'))), InputAction::Collapse);
}

#[test]
fn uppercase_g_jumps_bottom() {
    let mut state = InputState::new();
    assert_eq!(state.process_key(event(KeyCode::Char('G'))), InputAction::JumpBottom);
}

#[test]
fn navigation_keys_map_correctly() {
    let mut state = InputState::new();
    assert_eq!(state.process_key(event(KeyCode::Char('k'))), InputAction::MoveUp);
    assert_eq!(state.process_key(event(KeyCode::Char('j'))), InputAction::MoveDown);
    assert_eq!(state.process_key(event(KeyCode::Char('h'))), InputAction::Collapse);
    assert_eq!(state.process_key(event(KeyCode::Char('l'))), InputAction::Expand);
    assert_eq!(state.process_key(event(KeyCode::Char('q'))), InputAction::Quit);
    assert_eq!(state.process_key(event(KeyCode::Enter)), InputAction::Select);
}

#[test]
fn q_with_modifiers_does_not_quit() {
    let mut state = InputState::new();
    assert_eq!(state.process_key(KeyEvent::new(KeyCode::Char('q'), 2)), InputAction::NoAction);
}

#[test]
fn filter_prompt_takes_typed_keys() {
    let mut state = InputState::new();
    assert_eq!(state.process_key(event(KeyCode::Char('/'))), InputAction::StartFilter);
    assert_eq!(state.process_key(event(KeyCode::Char('q'))), InputAction::FilterChar('q'));
    assert_eq!(state.process_key(event(KeyCode::Backspace)), InputAction::FilterBackspace);
    assert_eq!(state.process_key(event(KeyCode::Enter)), InputAction::ApplyFilter);
    assert_eq!(state.process_key(event(KeyCode::Char('q'))), InputAction::Quit);
}

#[test]
fn readme_bindings_map_to_actions() {
    let mut state = InputState::new();
    let cases = [
        ('R', InputAction::StartScan),
        ('r', InputAction::Rescan),
        ('c', InputAction::ClearFilter),
        ('s', InputAction::CycleSort),
        ('b', InputAction::ToggleSizeMode),
        ('E', InputAction::ExportScan),
        ('I', InputAction::ImportScan),
        ('d', InputAction::Delete),
        ('o', InputAction::Open),
        ('H', InputAction::ToggleHidden),
        ('?', InputAction::ToggleHelp),
        ('t', InputAction::ToggleTreemap),
    ];
    for (c, action) in cases {
        assert_eq!(state.process_key(event(KeyCode::Char(c))), action);
    }
    assert_eq!(state.process_key(event(KeyCode::Tab)), InputAction::Select);
    assert_eq!(state.process_key(event(KeyCode::Esc)), InputAction::ToggleHelp);
}
