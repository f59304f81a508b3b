//! The decisions of the interface loop: what a key, a scan event or the
//! passing of a tick does, and when the screen is drawn. The caller runs the
//! loop itself: it polls the terminal, receives scan events, keeps the
//! clock, performs the effects and draws.
use crate::events::{handle_input_action, is_deferred, process_scan_event, InputEffect};
use crate::input::{key_action, key_next_state, InputAction, InputState, KeyEvent};
use crate::scan::{ScanEvent, ScanTrigger};
use crate::scan_handle::ScannerHandle;
use crate::state::{wrapping_inc, AppState, ScanState};
use crate::view::spinner_frames;
use vstd::prelude::*;

verus! {

/// How long the terminal is polled for input before scan events are taken.
pub const POLL_INTERVAL_MS: u64 = 50;

/// The interval between ticks (spinner steps and routine redraws).
pub const TICK_RATE_MS: u64 = 250;

/// The most scan events taken in one pass of the loop.
pub const MAX_SCAN_EVENTS_PER_CYCLE: usize = 256;

/// The loop's flags.
#[derive(Clone, Copy, Debug, PartialEq, Eq, Structural)]
pub struct LoopControl {
    /// Something changed since the last draw.
    pub pending_draw: bool,
    /// A scan finished: draw at once.
    pub force_redraw: bool,
    /// The user asked to quit.
    pub should_quit: bool,
}

/// What the caller does after a key: perform the effect, and cancel the scan
/// if asked.
#[derive(Debug)]
pub struct KeyOutcome {
    pub effect: InputEffect,
    pub cancel_scan: bool,
}

/// What the caller does at the end of a pass of the loop.
#[derive(Clone, Copy, Debug, PartialEq, Eq, Structural)]
pub struct PassEnd {
    /// Draw the screen now.
    pub draw: bool,
    /// Restart the tick clock.
    pub restart_tick: bool,
}

impl LoopControl {
    /// Prepares the state for the loop: with nothing selected the root is
    /// selected; the treemap entries are refreshed and the interface marked
    /// for redrawing. A first draw is pending.
    pub fn start(state: &mut AppState) -> (r: LoopControl)
        requires
            old(state).wf(),
        ensures
            final(state).wf(),
            r == (LoopControl { pending_draw: true, force_redraw: false, should_quit: false }),
            ({
                let s = AppState {
                    selection: if old(state).selection is None {
                        Some(0usize)
                    } else {
                        old(state).selection
                    },
                    ..*old(state)
                };
                &&& crate::treemap::is_ranking(
                    final(state).treemap_nodes@,
                    crate::state::child_entries(s.tree@, 0, s.size_mode),
                )
                &&& *final(state) == (AppState {
                    treemap_nodes: final(state).treemap_nodes,
                    treemap_revision: wrapping_inc(s.treemap_revision),
                    ui_revision: wrapping_inc(s.ui_revision),
                    selection: crate::state::visible_selection(
                        crate::tree::listed_ids(s.tree@, s.display_options.show_hidden),
                        s.selection,
                    ),
                    ..s
                })
            }),
    {
        if state.selection.is_none() {
            state.selection = Some(state.tree.root());
        }
        state.refresh_treemap_nodes();
        state.mark_ui_dirty();
        LoopControl { pending_draw: true, force_redraw: false, should_quit: false }
    }

    /// A key was pressed: it becomes an action, which is applied to the
    /// state. Quitting also asks for the running scan to be cancelled.
    pub fn on_key(&mut self, input: &mut InputState, key: KeyEvent, state: &mut AppState) -> (r: KeyOutcome)
        requires
            old(state).wf(),
        ensures
            final(state).wf(),
            *final(input) == key_next_state(*old(input), key),
            ({
                let action = key_action(*old(input), key);
                &&& r.cancel_scan == (action == InputAction::Quit)
                &&& final(self).should_quit == (old(self).should_quit || action == InputAction::Quit)
                &&& final(self).pending_draw
                &&& final(self).force_redraw == old(self).force_redraw
                &&& is_deferred(r.effect) ==> crate::events::action_applied(
                    *old(state),
                    action,
                    *final(state),
                    r.effect,
                )
                &&& !is_deferred(r.effect) ==> exists|mid: AppState|
                    #[trigger] crate::events::action_applied(*old(state), action, mid, r.effect)
                        && crate::state::refreshed(mid, *final(state))
            }),
    {
        let action = input.process_key(key);
        let quit = action == InputAction::Quit;
        if quit {
            self.should_quit = true;
        }
        let effect = handle_input_action(action, state);
        self.pending_draw = true;
        KeyOutcome { effect, cancel_scan: quit }
    }

    /// The terminal was resized: draw again.
    pub fn on_resize(&mut self)
        ensures
            *final(self) == (LoopControl { pending_draw: true, ..*old(self) }),
    {
        self.pending_draw = true;
    }

    /// A scan event arrived: it is applied to the state; completion forces a
    /// draw at once.
    pub fn on_scan_event(&mut self, state: &mut AppState, event: ScanEvent)
        requires
            old(state).wf(),
        ensures
            final(state).wf(),
            final(self).pending_draw,
            final(self).should_quit == old(self).should_quit,
            final(self).force_redraw == (old(self).force_redraw || event is Completed),
            match event {
                ScanEvent::Completed => {
                    &&& crate::tree::sizes_consistent(final(state).tree@)
                    &&& final(state).scan_state == ScanState::Completed
                    &&& final(state).status_message == Some(crate::state::StatusMessage::ScanComplete)
                    &&& final(state).scan_accumulator@.len() == 0
                    &&& crate::events::pending_cost(old(state).scan_accumulator@) + 2 < usize::MAX
                        ==> crate::events::holds_entries(final(state).tree@, old(state).scan_accumulator@)
                },
                _ => exists|mid: AppState|
                    #[trigger] crate::events::scan_event_applied(*old(state), event, mid)
                        && crate::state::refreshed(mid, *final(state)),
            },
    {
        if let ScanEvent::Completed = event {
            self.force_redraw = true;
        }
        process_scan_event(state, event);
        self.pending_draw = true;
    }

    /// The end of a pass. A forced draw happens at once and restarts the
    /// tick. Otherwise, when a tick is due: a running scan steps the spinner,
    /// and the screen is drawn if something changed or a scan is running.
    pub fn end_pass(&mut self, state: &mut AppState, tick_due: bool) -> (r: PassEnd)
        requires
            old(state).spinner_phase < usize::MAX,
        ensures
            final(self).should_quit == old(self).should_quit,
            !final(self).force_redraw,
            old(self).force_redraw ==> {
                &&& r == (PassEnd { draw: true, restart_tick: true })
                &&& !final(self).pending_draw
                &&& *final(state) == *old(state)
            },
            !old(self).force_redraw && !tick_due ==> {
                &&& r == (PassEnd { draw: false, restart_tick: false })
                &&& final(self).pending_draw == old(self).pending_draw
                &&& *final(state) == *old(state)
            },
            !old(self).force_redraw && tick_due ==> {
                let running = old(state).scan_state is Running;
                &&& r == (PassEnd { draw: old(self).pending_draw || running, restart_tick: true })
                &&& final(self).pending_draw == (old(self).pending_draw && !r.draw)
                &&& running ==> *final(state) == (AppState {
                    spinner_phase: ((old(state).spinner_phase + 1) % (spinner_frames().len() as int)) as usize,
                    ..*old(state)
                })
                &&& !running ==> *final(state) == *old(state)
            },
    {
        if self.force_redraw {
            self.force_redraw = false;
            self.pending_draw = false;
            return PassEnd { draw: true, restart_tick: true };
        }
        if !tick_due {
            return PassEnd { draw: false, restart_tick: false };
        }
        let running = match state.scan_state {
            ScanState::Running(_) => true,
            _ => false,
        };
        if running {
            state.advance_spinner(crate::view::braille_symbol_count());
        }
        let draw = self.pending_draw || running;
        if draw {
            self.pending_draw = false;
        }
        PassEnd { draw, restart_tick: true }
    }
}

/// The scan manager's state: the handle of the scan it started last, while
/// that scan may still run.
#[derive(Debug)]
pub struct ScanManager {
    pub running: Option<ScannerHandle>,
}

/// What the caller does after a request.
#[derive(Clone, Copy, Debug, PartialEq, Eq, Structural)]
pub enum ManagerStep {
    /// Start a scan and hand its handle to [`ScanManager::started`].
    StartScan,
    /// Wait for the next request.
    Continue,
    /// Stop serving requests.
    Exit,
}

impl ScanManager {
    pub fn new() -> (r: Self)
        ensures
            r.running is None,
    {
        ScanManager { running: None }
    }

    /// Handles a request. Starting cancels the running scan first; stopping
    /// and cancelling cancel it; cancelling also ends the manager. Pausing
    /// and resuming are not supported and change nothing.
    pub fn handle_trigger(&mut self, trigger: ScanTrigger) -> (r: ManagerStep)
        ensures
            match trigger {
                ScanTrigger::Start => r == ManagerStep::StartScan && final(self).running is None,
                ScanTrigger::Stop => r == ManagerStep::Continue && final(self).running is None,
                ScanTrigger::Cancel => r == ManagerStep::Exit && final(self).running is None,
                _ => r == ManagerStep::Continue && final(self).running == old(self).running,
            },
    {
        match trigger {
            ScanTrigger::Start => {
                self.cancel_running();
                ManagerStep::StartScan
            },
            ScanTrigger::Stop => {
                self.cancel_running();
                ManagerStep::Continue
            },
            ScanTrigger::Cancel => {
                self.cancel_running();
                ManagerStep::Exit
            },
            _ => ManagerStep::Continue,
        }
    }

    /// Records the handle of the scan just started.
    pub fn started(&mut self, handle: ScannerHandle)
        ensures
            final(self).running == Some(handle),
    {
        self.running = Some(handle);
    }

    /// Cancels the running scan, if any, and forgets it.
    pub fn cancel_running(&mut self)
        ensures
            final(self).running is None,
    {
        if let Some(handle) = self.running.take() {
            handle.cancel();
        }
    }
}

} // verus!
