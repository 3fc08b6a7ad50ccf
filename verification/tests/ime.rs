//! The host input method.

use emskin::geometry::{Point, Rect};
use emskin::ime::{
    ime_cursor_area, on_host_ime_event, transition_focus, HostIme, ImeBridge, TextInputCall,
};
use emskin::input::SurfaceId;

fn fresh_bridge() -> ImeBridge {
    ImeBridge::new()
}

/// No client has text input enabled.
const NOBODY: bool = false;

#[test]
fn resync_first_call_writes_disable_into_mailbox() {
    let mut bridge = fresh_bridge();
    bridge.resync(NOBODY);
    assert_eq!(bridge.ime_enabled, Some(false));
}

#[test]
fn take_ime_enabled_records_last_committed() {
    let mut bridge = fresh_bridge();
    bridge.resync(NOBODY);
    let taken = bridge.take_ime_enabled();
    assert_eq!(taken, Some(false));
    assert_eq!(bridge.last_committed, Some(false));
    assert!(bridge.ime_enabled.is_none(), "mailbox drained");
}

#[test]
fn resync_is_silent_when_answer_matches_last_committed() {
    let mut bridge = fresh_bridge();
    bridge.resync(NOBODY);
    bridge.take_ime_enabled();

    bridge.resync(NOBODY);
    assert!(
        bridge.ime_enabled.is_none(),
        "resync must not re-queue when last_committed already matches"
    );
}

#[test]
fn resync_overwrites_undrained_mailbox_when_value_unchanged() {
    let mut bridge = fresh_bridge();
    bridge.resync(NOBODY);
    assert_eq!(bridge.ime_enabled, Some(false));
    bridge.resync(NOBODY);
    assert_eq!(
        bridge.ime_enabled,
        Some(false),
        "second resync without intervening take is idempotent"
    );
}

#[test]
fn reset_on_workspace_switch_queues_disable_when_last_was_enabled() {
    let mut bridge = fresh_bridge();
    bridge.last_committed = Some(true);
    bridge.reset_on_workspace_switch();
    assert_eq!(bridge.ime_enabled, Some(false));
}

#[test]
fn reset_on_workspace_switch_is_silent_when_already_disabled() {
    let mut bridge = fresh_bridge();
    bridge.last_committed = Some(false);
    bridge.reset_on_workspace_switch();
    assert!(
        bridge.ime_enabled.is_none(),
        "no redundant winit syscall when workspace switch doesn't change IME state"
    );
}

#[test]
fn reset_clears_focused_surface_regardless_of_ime_state() {
    let mut bridge = fresh_bridge();
    bridge.last_committed = Some(false);
    bridge.focused_surface = Some(SurfaceId(7));
    bridge.reset_on_workspace_switch();
    assert!(bridge.focused_surface.is_none());
}

#[test]
fn resync_tells_a_change_once() {
    let mut bridge = fresh_bridge();
    bridge.resync(true);
    assert_eq!(bridge.take_ime_enabled(), Some(true));
    bridge.resync(true);
    assert_eq!(bridge.take_ime_enabled(), None);
    bridge.resync(false);
    assert_eq!(bridge.take_ime_enabled(), Some(false));
}

#[test]
fn focus_leaves_the_old_surface_before_it_enters_the_new() {
    let calls = transition_focus(Some(SurfaceId(1)), Some(SurfaceId(2)));
    let leave = calls.iter().position(|c| *c == TextInputCall::Leave).unwrap();
    let set = calls
        .iter()
        .position(|c| *c == TextInputCall::SetFocus(Some(SurfaceId(2))))
        .unwrap();
    let enter = calls.iter().position(|c| *c == TextInputCall::Enter).unwrap();
    assert!(leave < set && set < enter);
}

#[test]
fn host_commits_reach_the_client() {
    let calls = on_host_ime_event(HostIme::Commit("\u{6c49}".to_string()));
    assert!(calls.contains(&TextInputCall::Commit("\u{6c49}".to_string())));
    assert_eq!(calls.last(), Some(&TextInputCall::Done));
}

#[test]
fn the_candidate_window_follows_the_surface() {
    let caret = Rect { x: 5, y: 6, w: 1, h: 16 };
    let area = ime_cursor_area(caret, Some(Point { x: 100, y: 200 }));
    assert_eq!((area.x, area.y), (105, 206));
}
