//! Keys to actions: the key bindings of the interface, including the `gg`
//! sequence and the filter prompt, where typed characters go to the query.
use vstd::prelude::*;

verus! {

/// A key, as the terminal reports it.
#[derive(Clone, Copy, Debug, PartialEq, Eq, Structural)]
pub enum KeyCode {
    Char(char),
    Up,
    Down,
    Left,
    Right,
    Enter,
    Tab,
    Esc,
    Backspace,
    Other,
}

/// A key press with its modifier bits (shift, control, alt, ...; zero for
/// none).
#[derive(Clone, Copy, Debug, PartialEq, Eq, Structural)]
pub struct KeyEvent {
    pub code: KeyCode,
    pub modifiers: u8,
}

impl KeyEvent {
    pub fn new(code: KeyCode, modifiers: u8) -> (r: KeyEvent)
        ensures
            r == (KeyEvent { code, modifiers }),
    {
        KeyEvent { code, modifiers }
    }
}

/// What a key asks for.
#[derive(Clone, Copy, Debug, PartialEq, Eq, Structural)]
pub enum InputAction {
    MoveUp,
    MoveDown,
    Expand,
    Collapse,
    JumpTop,
    JumpBottom,
    Select,
    Quit,
    NoAction,
    Delete,
    Open,
    ToggleSizeMode,
    ToggleTreemap,
    ExportScan,
    ImportScan,
    Rescan,
    StartFilter,
    FilterChar(char),
    FilterBackspace,
    ApplyFilter,
    ClearFilter,
    CycleSort,
    ToggleHidden,
    ToggleHelp,
    StartScan,
}

/// What the key reader remembers between keys: a first `g` waiting for a
/// second, and whether the filter prompt is taking the keys.
#[derive(Clone, Copy, Debug, PartialEq, Eq, Structural)]
pub struct InputState {
    pub pending_gg: bool,
    pub filter_mode: bool,
}

/// The action of a key while the filter prompt takes the keys: Enter
/// applies the filter, Esc clears it, Backspace removes a character, and a
/// character is typed into the query.
pub open spec fn filter_key_action(key: KeyEvent) -> InputAction {
    match key.code {
        KeyCode::Enter => InputAction::ApplyFilter,
        KeyCode::Esc => InputAction::ClearFilter,
        KeyCode::Backspace => InputAction::FilterBackspace,
        KeyCode::Char(c) => InputAction::FilterChar(c),
        _ => InputAction::NoAction,
    }
}

/// The action of a key outside the filter prompt, given whether a first `g`
/// is waiting.
pub open spec fn normal_key_action(pending_gg: bool, key: KeyEvent) -> InputAction {
    match key.code {
        KeyCode::Char('k') | KeyCode::Up => InputAction::MoveUp,
        KeyCode::Char('j') | KeyCode::Down => InputAction::MoveDown,
        KeyCode::Char('h') | KeyCode::Left => InputAction::Collapse,
        KeyCode::Char('l') | KeyCode::Right => InputAction::Expand,
        KeyCode::Char('q') => if key.modifiers == 0 {
            InputAction::Quit
        } else {
            InputAction::NoAction
        },
        KeyCode::Enter | KeyCode::Tab => InputAction::Select,
        KeyCode::Char('g') => if pending_gg {
            InputAction::JumpTop
        } else {
            InputAction::NoAction
        },
        KeyCode::Char('G') => InputAction::JumpBottom,
        KeyCode::Char('R') => InputAction::StartScan,
        KeyCode::Char('r') => InputAction::Rescan,
        KeyCode::Char('/') => InputAction::StartFilter,
        KeyCode::Char('c') => InputAction::ClearFilter,
        KeyCode::Char('s') => InputAction::CycleSort,
        KeyCode::Char('b') => InputAction::ToggleSizeMode,
        KeyCode::Char('E') => InputAction::ExportScan,
        KeyCode::Char('I') => InputAction::ImportScan,
        KeyCode::Char('d') => InputAction::Delete,
        KeyCode::Char('o') => InputAction::Open,
        KeyCode::Char('H') => InputAction::ToggleHidden,
        KeyCode::Char('?') | KeyCode::Esc => InputAction::ToggleHelp,
        KeyCode::Char('t') => InputAction::ToggleTreemap,
        _ => InputAction::NoAction,
    }
}

/// The action of a key in the given state.
pub open spec fn key_action(state: InputState, key: KeyEvent) -> InputAction {
    if state.filter_mode {
        filter_key_action(key)
    } else {
        normal_key_action(state.pending_gg, key)
    }
}

/// The state after a key: a lone `g` starts waiting for a second, anything
/// else stops the wait; the prompt opens on StartFilter and closes when the
/// filter is applied or cleared.
pub open spec fn key_next_state(state: InputState, key: KeyEvent) -> InputState {
    let action = key_action(state, key);
    InputState {
        pending_gg: !state.filter_mode && key.code == KeyCode::Char('g') && action != InputAction::JumpTop,
        filter_mode: if state.filter_mode {
            !(action == InputAction::ApplyFilter || action == InputAction::ClearFilter)
        } else {
            action == InputAction::StartFilter
        },
    }
}

impl Default for InputState {
    fn default() -> (r: Self)
        ensures
            !r.pending_gg,
            !r.filter_mode,
    {
        InputState { pending_gg: false, filter_mode: false }
    }
}

impl InputState {
    /// A reader with nothing pending and the prompt closed.
    pub fn new() -> (r: Self)
        ensures
            !r.pending_gg,
            !r.filter_mode,
    {
        InputState { pending_gg: false, filter_mode: false }
    }

    /// The action a key asks for (see `key_action`); the state moves on as
    /// `key_next_state` says.
    pub fn process_key(&mut self, key_event: KeyEvent) -> (r: InputAction)
        ensures
            r == key_action(*old(self), key_event),
            *final(self) == key_next_state(*old(self), key_event),
    {
        if self.filter_mode {
            let action = match key_event.code {
                KeyCode::Enter => InputAction::ApplyFilter,
                KeyCode::Esc => InputAction::ClearFilter,
                KeyCode::Backspace => InputAction::FilterBackspace,
                KeyCode::Char(c) => InputAction::FilterChar(c),
                _ => InputAction::NoAction,
            };
            self.pending_gg = false;
            if action == InputAction::ApplyFilter || action == InputAction::ClearFilter {
                self.filter_mode = false;
            }
            return action;
        }
        let action = match key_event.code {
            KeyCode::Char('k') | KeyCode::Up => InputAction::MoveUp,
            KeyCode::Char('j') | KeyCode::Down => InputAction::MoveDown,
            KeyCode::Char('h') | KeyCode::Left => InputAction::Collapse,
            KeyCode::Char('l') | KeyCode::Right => InputAction::Expand,
            KeyCode::Char('q') => if key_event.modifiers == 0 {
                InputAction::Quit
            } else {
                InputAction::NoAction
            },
            KeyCode::Enter | KeyCode::Tab => InputAction::Select,
            KeyCode::Char('g') => if self.pending_gg {
                InputAction::JumpTop
            } else {
                self.pending_gg = true;
                InputAction::NoAction
            },
            KeyCode::Char('G') => InputAction::JumpBottom,
            KeyCode::Char('R') => InputAction::StartScan,
            KeyCode::Char('r') => InputAction::Rescan,
            KeyCode::Char('/') => InputAction::StartFilter,
            KeyCode::Char('c') => InputAction::ClearFilter,
            KeyCode::Char('s') => InputAction::CycleSort,
            KeyCode::Char('b') => InputAction::ToggleSizeMode,
            KeyCode::Char('E') => InputAction::ExportScan,
            KeyCode::Char('I') => InputAction::ImportScan,
            KeyCode::Char('d') => InputAction::Delete,
            KeyCode::Char('o') => InputAction::Open,
            KeyCode::Char('H') => InputAction::ToggleHidden,
            KeyCode::Char('?') | KeyCode::Esc => InputAction::ToggleHelp,
            KeyCode::Char('t') => InputAction::ToggleTreemap,
            _ => InputAction::NoAction,
        };
        if key_event.code != KeyCode::Char('g') || action == InputAction::JumpTop {
            self.pending_gg = false;
        }
        if action == InputAction::StartFilter {
            self.filter_mode = true;
        }
        action
    }
}

/// Two `g` presses in a row jump to the top, from a fresh reader or after
/// any key that is not `g`.
pub proof fn lemma_gg_jumps_top(s: InputState, m1: u8, m2: u8)
    requires
        !s.filter_mode,
        !s.pending_gg,
    ensures
        ({
            let g1 = KeyEvent { code: KeyCode::Char('g'), modifiers: m1 };
            let g2 = KeyEvent { code: KeyCode::Char('g'), modifiers: m2 };
            let s1 = key_next_state(s, g1);
            &&& key_action(s, g1) == InputAction::NoAction
            &&& key_action(s1, g2) == InputAction::JumpTop
            &&& !key_next_state(s1, g2).pending_gg
        }),
{
}

} // verus!
