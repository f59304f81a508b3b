use dar::config::SortMode;
use dar::event_loop::{LoopControl, ManagerStep, PassEnd, ScanManager};
use dar::events::InputEffect;
use dar::input::{InputState, KeyCode, KeyEvent};
use dar::scan::{ScanEvent, ScanProgress, ScanTrigger};
use dar::scan_handle::ScannerHandle;
use dar::state::{AppState, ScanState};
use std::sync::atomic::AtomicBool;
use std::sync::Arc;

fn state() -> AppState {
    AppState::new("/".to_string(), SortMode::SizeDesc)
}

#[test]
fn loop_start_selects_the_root() {
    let mut s = state();
    let before = s.ui_revision;
    let control = LoopControl::start(&mut s);
    assert_eq!(s.selection, Some(0));
    assert!(control.pending_draw && !control.force_redraw && !control.should_quit);
    assert_ne!(s.ui_revision, before);
}

#[test]
fn quitting_cancels_the_scan() {
    let mut s = state();
    let mut control = LoopControl::start(&mut s);
    let mut input = InputState::new();
    let out = control.on_key(&mut input, KeyEvent::new(KeyCode::Char('q'), 0), &mut s);
    assert!(out.cancel_scan);
    assert!(control.should_quit);
    let out = control.on_key(&mut input, KeyEvent::new(KeyCode::Char('R'), 0), &mut s);
    assert!(!out.cancel_scan);
    assert!(matches!(out.effect, InputEffect::StartScan));
}

#[test]
fn completion_forces_a_draw() {
    let mut s = state();
    let mut control = LoopControl::start(&mut s);
    assert_eq!(control.end_pass(&mut s, false), PassEnd { draw: false, restart_tick: false });
    assert_eq!(control.end_pass(&mut s, true), PassEnd { draw: true, restart_tick: true });
    assert!(!control.pending_draw);
    control.on_scan_event(&mut s, ScanEvent::Completed);
    assert!(control.force_redraw);
    assert_eq!(s.scan_state, ScanState::Completed);
    assert_eq!(control.end_pass(&mut s, false), PassEnd { draw: true, restart_tick: true });
    assert!(!control.force_redraw && !control.pending_draw);
}

#[test]
fn ticks_step_the_spinner_while_scanning() {
    let mut s = state();
    let mut control = LoopControl::start(&mut s);
    control.on_scan_event(&mut s, ScanEvent::Progress(ScanProgress { scanned: 1, errors: 0 }));
    assert!(matches!(s.scan_state, ScanState::Running(_)));
    control.end_pass(&mut s, true);
    let phase = s.spinner_phase;
    let end = control.end_pass(&mut s, true);
    assert!(end.draw);
    assert_eq!(s.spinner_phase, (phase + 1) % 8);
    control.on_resize();
    assert!(control.pending_draw);
}

#[test]
fn scan_manager_follows_requests() {
    let mut m = ScanManager::new();
    assert_eq!(m.handle_trigger(ScanTrigger::Start), ManagerStep::StartScan);
    let flag = Arc::new(AtomicBool::new(false));
    let handle = ScannerHandle::new(flag.clone());
    m.started(handle.clone());
    assert_eq!(m.handle_trigger(ScanTrigger::Pause), ManagerStep::Continue);
    assert!(!handle.is_cancelled());
    assert_eq!(m.handle_trigger(ScanTrigger::Start), ManagerStep::StartScan);
    assert!(handle.is_cancelled());
    assert!(m.running.is_none());
    assert_eq!(m.handle_trigger(ScanTrigger::Cancel), ManagerStep::Exit);
}
