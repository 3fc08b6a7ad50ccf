//! Windows, workspaces, focus and the host window.

use emskin::cursor_x11::{map_cursor_name, CursorIcon, X11CursorTracker};
use emskin::emez::{leftover_files, HostFocus};
use emskin::frame::{canvas, host_cursor_visible, layer_order, Latches};
use emskin::geometry::{Point, Rect, Size};
use emskin::input::{
    is_prefix_key, Button, ButtonAction, ConstraintKind, InputAction, InputEvent, InputState,
    Motion, MotionAction, Region, SurfaceId, Target, ViewRef,
};
use emskin::input::{pointer_motion, Constraint, RectangleKind, KEY_C, KEY_X};
use emskin::layout::{focus_target_for_surface, surface_under};
use emskin::selection::{SelectionCall, SelectionOrigin, SelectionState, SelectionTarget};
use emskin::shell::{
    extract_bar_name, handle_surface_commit, popup_grab, popup_target, FirstConfigures, GrabHolder,
};
use emskin::state::{
    emacs_rect_to_canvas, CursorStatus, EmskinState, OutgoingMessage, Request,
};
use emskin::tick::{WorkspaceAction, GEOMETRY_TIMEOUT};
use emskin::workspace::{Workspace, WorkspaceState};
use emskin::x11::configure_notify;

const EMACS: SurfaceId = SurfaceId(1);
const APP: SurfaceId = SurfaceId(2);
const OUTPUT: Size = Size { w: 1280, h: 800 };

/// A compositor with its Emacs connected.
fn connected() -> EmskinState<u32> {
    let mut state = EmskinState::new(0, true);
    state.new_toplevel(EMACS, false, "Emacs".to_string(), Some(OUTPUT));
    state
}

#[test]
fn the_first_toplevel_is_emacs() {
    let mut state = EmskinState::new(0u32, true);
    let requests = state.new_toplevel(EMACS, false, "t".to_string(), Some(OUTPUT));
    assert_eq!(
        requests,
        [
            Request::Configure { surface: EMACS, size: OUTPUT, fullscreen: true, at_once: false },
            Request::Send(OutgoingMessage::SurfaceSize { width: 1280, height: 800 }),
            Request::Place { surface: EMACS, workspace: 1, at: Point { x: 0, y: 0 } },
            Request::Lower(EMACS),
            Request::Focus(Some(EMACS)),
        ]
    );
    assert!(state.is_emacs_surface(EMACS));
    let requests = state.new_toplevel(APP, false, "term".to_string(), Some(OUTPUT));
    assert_eq!(state.apps.len(), 1);
    assert!(requests.contains(&Request::Send(OutgoingMessage::WindowCreated {
        window_id: 1,
        title: "term".to_string()
    })));
    assert_eq!(state.id_for_surface(APP), Some(1));
}

#[test]
fn frame_titles_name_workspaces() {
    assert_eq!(extract_bar_name("*scratch* - GNU Emacs at host"), "*scratch*");
    assert_eq!(extract_bar_name("*eaf: browser - GNU Emacs"), "browser");
    assert_eq!(extract_bar_name("  plain "), "plain");
}

#[test]
fn switching_there_and_back_restores() {
    let mut workspaces = WorkspaceState::new("first");
    let id = workspaces.alloc_id();
    workspaces.insert(
        id,
        Workspace { space: "second", emacs_surface: Some(APP), name: "b".to_string() },
    );
    assert_eq!(workspaces.all_ids(), [1, 2]);
    assert_eq!(workspaces.count(), 2);
    assert!(workspaces.switch_workspace(id));
    assert_eq!(workspaces.active.space, "second");
    assert!(!workspaces.switch_workspace(id));
    assert!(!workspaces.switch_workspace(77));
    assert!(workspaces.switch_workspace(1));
    assert_eq!((workspaces.active.space, workspaces.active_id), ("first", 1));
    assert_eq!(workspaces.find_inactive(APP), Some(2));
    assert!(workspaces.is_any_emacs_surface(APP));
    assert!(!workspaces.is_any_emacs_surface(EMACS));
}

#[test]
fn layouts_are_changed_in_place() {
    let mut workspaces = WorkspaceState::new(1u32);
    let id = workspaces.alloc_id();
    workspaces.insert(id, Workspace { space: 2, emacs_surface: None, name: String::new() });
    *workspaces.space_for_mut(id).unwrap() = 20;
    *workspaces.space_for_mut(1).unwrap() = 10;
    assert!(workspaces.space_for_mut(9).is_none());
    assert_eq!(workspaces.active.space, 10);
    workspaces.rename_inactive(id, "mail".to_string());
    let gone = workspaces.destroy_workspace(id).unwrap();
    assert_eq!((gone.space, gone.name.as_str()), (20, "mail"));
    assert!(workspaces.destroy_workspace(id).is_none());
}

#[test]
fn a_second_frame_opens_a_workspace() {
    let mut state = connected();
    state.new_toplevel(SurfaceId(5), true, String::new(), Some(OUTPUT));
    assert_eq!(state.take_pending_toplevels(), [SurfaceId(5)]);
    let area = Some(Rect { x: 0, y: 28, w: 1280, h: 772 });
    let requests = state.process_pending_toplevel(SurfaceId(5), false, 9, area);
    assert!(requests.contains(&Request::Send(OutgoingMessage::WorkspaceCreated { workspace_id: 2 })));
    assert_eq!(state.workspaces.all_ids(), [1, 2]);
    let infos = state.refresh_workspace_state();
    assert_eq!(infos.iter().filter(|i| i.active).count(), 1);
}

#[test]
fn switching_workspaces_tells_emacs_before_the_focus_moves() {
    let mut state = connected();
    let id = state.workspaces.alloc_id();
    state.workspaces.insert(
        id,
        Workspace { space: 3, emacs_surface: Some(SurfaceId(8)), name: String::new() },
    );
    state.cursor_status = CursorStatus::Surface(APP);
    let requests = state.process_workspace_action(WorkspaceAction::Activate(id));
    let told = requests
        .iter()
        .position(|r| *r == Request::Send(OutgoingMessage::WorkspaceSwitched { workspace_id: 2 }))
        .unwrap();
    let focused =
        requests.iter().position(|r| *r == Request::Focus(Some(SurfaceId(8)))).unwrap();
    assert!(told < focused);
    assert_eq!(state.cursor_status, CursorStatus::Default);
    assert!(state.cursor_changed);
}

#[test]
fn a_dead_frame_takes_its_windows_along() {
    let mut state = connected();
    let id = state.workspaces.alloc_id();
    state.workspaces.insert(
        id,
        Workspace { space: 3, emacs_surface: Some(SurfaceId(8)), name: String::new() },
    );
    state.switch_workspace(id);
    state.new_toplevel(APP, false, "x".to_string(), None);
    state.switch_workspace(1);
    let requests = state.detect_dead_workspaces(&[SurfaceId(8)]);
    assert!(requests.contains(&Request::Send(OutgoingMessage::WindowDestroyed { window_id: 1 })));
    assert!(state.apps.is_empty());
    assert_eq!(state.workspaces.all_ids(), [1]);
}

#[test]
fn the_last_dead_frame_stops_the_compositor() {
    let mut state = connected();
    assert!(state.detect_dead_workspaces(&[APP]).is_empty());
    assert_eq!(state.detect_dead_workspaces(&[EMACS]), [Request::Stop]);
    state.detect_emacs = false;
    assert!(state.detect_dead_workspaces(&[EMACS]).is_empty());
}

#[test]
fn another_frame_takes_over_from_a_dead_one() {
    let mut state = connected();
    let id = state.workspaces.alloc_id();
    state.workspaces.insert(
        id,
        Workspace { space: 3, emacs_surface: Some(SurfaceId(8)), name: String::new() },
    );
    state.ime.last_committed = Some(true);
    state.ime.focused_surface = Some(EMACS);
    state.needs_redraw = false;
    let requests = state.detect_dead_workspaces(&[EMACS]);
    assert!(requests.contains(&Request::Focus(Some(SurfaceId(8)))));
    assert_eq!(state.workspaces.active_id, id);
    assert_eq!(state.ime.ime_enabled, Some(false));
    assert_eq!(state.ime.focused_surface, None);
    assert!(state.needs_redraw);
}

#[test]
fn windows_move_to_the_active_workspace() {
    let mut state = connected();
    state.new_toplevel(APP, false, "x".to_string(), None);
    assert_eq!(state.migrate_app_to_active(1), None);
    let id = state.workspaces.alloc_id();
    state.workspaces.insert(id, Workspace { space: 3, emacs_surface: None, name: String::new() });
    state.switch_workspace(id);
    assert_eq!(state.migrate_app_to_active(1), Some((APP, 1)));
    assert_eq!(state.apps[0].workspace_id, id);
    assert_eq!(state.migrate_app_to_active(42), None);
}

#[test]
fn dead_windows_are_reported() {
    let mut state = connected();
    state.new_toplevel(APP, false, "x".to_string(), None);
    let requests = state.cleanup_dead_apps(&[APP], true);
    assert!(requests.contains(&Request::Send(OutgoingMessage::WindowDestroyed { window_id: 1 })));
    assert!(state.apps.is_empty());
}

#[test]
fn a_geometry_that_nobody_follows_is_applied() {
    let mut state = connected();
    state.new_toplevel(APP, false, "x".to_string(), None);
    let wanted = Rect { x: 1, y: 2, w: 3, h: 4 };
    state.apps[0].pending_geometry = Some(wanted);
    state.apps[0].pending_since = Some(1000);
    state.commit_timed_out(1000 + GEOMETRY_TIMEOUT / 2);
    assert_eq!(state.apps[0].geometry, None);
    state.commit_timed_out(1001 + GEOMETRY_TIMEOUT);
    assert_eq!(state.apps[0].geometry, Some(wanted));
    assert_eq!(state.apps[0].pending_geometry, None);
}

#[test]
fn requests_of_emacs_go_to_the_host_window() {
    let mut state = connected();
    state.take_pending_state();
    assert!(state.fullscreen_request(EMACS));
    assert!(!state.fullscreen_request(SurfaceId(99)));
    state.maximize_request(EMACS);
    state.title_changed(EMACS, Some("hello".to_string()));
    state.cursor_changed = true;
    state.cursor_status = CursorStatus::Hidden;
    state.ime.resync(true);
    let pending = state.take_pending_state();
    assert_eq!(pending.fullscreen, Some(true));
    assert_eq!(pending.title.as_deref(), Some("hello"));
    assert_eq!(pending.ime, Some(true));
    assert_eq!(pending.cursor, Some(CursorStatus::Hidden));
    let again = state.take_pending_state();
    assert!(again.title.is_none() && again.fullscreen.is_none() && again.maximize.is_none());
    assert!(again.ime.is_none() && again.cursor.is_none());
}

#[test]
fn titles_of_inactive_frames_name_their_workspace() {
    let mut state = connected();
    let id = state.workspaces.alloc_id();
    state.workspaces.insert(
        id,
        Workspace { space: 3, emacs_surface: Some(SurfaceId(8)), name: String::new() },
    );
    state.title_changed(SurfaceId(8), Some("mail - GNU Emacs".to_string()));
    let names: Vec<String> =
        state.refresh_workspace_state().into_iter().map(|i| i.name).collect();
    assert!(names.contains(&"mail".to_string()));
}

#[test]
fn frames_are_rendered_while_something_asks_for_them() {
    let mut state = connected();
    assert!(state.begin_redraw());
    assert!(!state.begin_redraw());
    state.end_frame(false, false);
    assert!(!state.begin_redraw());
    state.end_frame(true, false);
    assert!(state.begin_redraw());
    state.end_frame(false, true);
    assert!(state.begin_redraw());
}

#[test]
fn a_resized_host_resizes_every_frame() {
    let mut state = connected();
    let id = state.workspaces.alloc_id();
    state.workspaces.insert(
        id,
        Workspace { space: 3, emacs_surface: Some(SurfaceId(8)), name: String::new() },
    );
    let area = Rect { x: 0, y: 28, w: 1000, h: 700 };
    let requests = state.resized(Some(area));
    assert_eq!(
        requests,
        [
            Request::Relayout { surface: EMACS, workspace: 1, area },
            Request::Relayout { surface: SurfaceId(8), workspace: 2, area },
            Request::Send(OutgoingMessage::SurfaceSize { width: 1000, height: 700 }),
        ]
    );
    let mut fresh = EmskinState::new(0u32, true);
    fresh.begin_redraw();
    assert!(fresh.resized(Some(area)).is_empty());
    assert!(fresh.needs_redraw);
}

#[test]
fn changes_are_noticed_once() {
    let mut latches = Latches::new();
    assert!(!latches.emacs_connected(false));
    assert!(latches.emacs_connected(true));
    assert!(!latches.emacs_connected(true));
    assert_eq!(latches.recording_active(false), None);
    assert_eq!(latches.recording_active(true), Some(true));
    assert_eq!(latches.recording_active(true), None);
    assert_eq!(latches.recording_active(false), Some(false));
}

#[test]
fn client_cursors_hide_that_of_the_host() {
    assert!(host_cursor_visible(CursorStatus::Default));
    assert!(host_cursor_visible(CursorStatus::Named));
    assert!(!host_cursor_visible(CursorStatus::Hidden));
    assert!(!host_cursor_visible(CursorStatus::Surface(APP)));
}

#[test]
fn layers_are_painted_newest_first() {
    let s = |n: u64| SurfaceId(n);
    assert_eq!(
        layer_order(&[s(1), s(2)], &[s(3)], &[], &[s(4), s(5)]),
        [s(2), s(1), s(3), s(5), s(4)]
    );
    assert_eq!(canvas(None, OUTPUT), Rect { x: 0, y: 0, w: 1280, h: 800 });
}

#[test]
fn mirrors_cover_everything_below() {
    assert_eq!(surface_under(Some(None), &[Some(1)], Some(2)), None);
    assert_eq!(surface_under(None, &[None, Some(1)], Some(2)), Some(1));
    assert_eq!(surface_under(None, &[None, None], Some(2)), Some(2));
    assert_eq!(focus_target_for_surface(None, Some(2), Some(3)), Some(2));
}

#[test]
fn x_windows_are_mapped_where_they_ask() {
    let mut state = connected();
    let geometry = Rect { x: 5, y: 6, w: 0, h: 40 };
    let requests =
        state.map_window_request(APP, None, false, "xterm".to_string(), geometry, Some(OUTPUT));
    assert_eq!(
        requests[0],
        Request::Place { surface: APP, workspace: 1, at: Point { x: 5, y: 6 } }
    );
    assert_eq!(state.apps[0].geometry, Some(Rect { x: 5, y: 6, w: 1, h: 40 }));
    assert!(state.apps[0].visible);
    assert_eq!(
        state.configure_request(APP, geometry, Some(0), Some(70), Some(OUTPUT)),
        Some(Rect { x: 5, y: 6, w: 1, h: 70 })
    );
    assert_eq!(
        state.configure_request(APP, geometry, Some(u32::MAX), None, None),
        Some(Rect { x: 5, y: 6, w: 1, h: 40 })
    );
}

#[test]
fn an_x_emacs_stays_fullscreen() {
    let mut state = EmskinState::new(0u32, true);
    let small = Rect { x: 1, y: 1, w: 10, h: 10 };
    state.map_window_request(EMACS, None, true, String::new(), small, Some(OUTPUT));
    assert_eq!(state.emacs_x11_window, None);
    let requests =
        state.map_window_request(EMACS, None, false, String::new(), small, Some(OUTPUT));
    let whole = Rect { x: 0, y: 0, w: 1280, h: 800 };
    assert_eq!(requests[0], Request::ConfigureX11 { window: EMACS, geometry: whole });
    assert_eq!(state.configure_request(EMACS, small, Some(3), Some(3), Some(OUTPUT)), Some(whole));
    assert_eq!(state.configure_request(EMACS, small, Some(3), Some(3), None), None);
    assert_eq!(configure_notify(true, true, small), Some(Point { x: 1, y: 1 }));
    assert_eq!(configure_notify(false, true, small), None);
}

#[test]
fn x_cursors_have_icons() {
    assert_eq!(map_cursor_name("xterm"), CursorIcon::Text);
    assert_eq!(map_cursor_name("hand2"), CursorIcon::Pointer);
    assert_eq!(map_cursor_name("X_cursor"), CursorIcon::NotAllowed);
    assert_eq!(map_cursor_name("left_ptr"), CursorIcon::Default);
    let mut tracker = X11CursorTracker::new();
    assert!(tracker.cursor_notify(7));
    assert!(!tracker.cursor_notify(7));
    tracker.resolved(Some("watch"));
    assert_eq!(tracker.take_pending(), Some(CursorIcon::Wait));
    assert_eq!(tracker.take_pending(), None);
    assert!(!tracker.cursor_notify(0));
    assert_eq!(tracker.take_pending(), Some(CursorIcon::Default));
    tracker.connection_lost();
    assert!(tracker.broken);
}

fn mimes(list: &[&str]) -> Vec<String> {
    list.iter().map(|m| m.to_string()).collect()
}

#[test]
fn host_selections_reach_both_kinds_of_clients() {
    let mut state = SelectionState::new();
    let clipboard = SelectionTarget::Clipboard;
    let text = mimes(&["text/plain"]);
    assert_eq!(
        state.host_selection_changed(clipboard, text.clone(), true),
        [
            SelectionCall::SetX11(clipboard, Some(text.clone())),
            SelectionCall::SetWayland(clipboard, text.clone()),
        ]
    );
    assert_eq!(state.replay(), [SelectionCall::SetX11(clipboard, Some(text))]);
    assert_eq!(
        state.host_selection_changed(clipboard, Vec::new(), true),
        [SelectionCall::ClearWayland(clipboard), SelectionCall::SetX11(clipboard, None)]
    );
    assert!(state.replay().is_empty());
}

#[test]
fn pastes_ask_the_side_that_copied() {
    let mut state = SelectionState::new();
    let clipboard = SelectionTarget::Clipboard;
    let primary = SelectionTarget::Primary;
    assert_eq!(SelectionOrigin::default(), SelectionOrigin::Wayland);
    assert_eq!(
        state.x11_send_selection(clipboard, true),
        SelectionCall::RequestWayland(clipboard)
    );
    let calls = state.x11_new_selection(clipboard, mimes(&["a/b"]), false, true);
    assert_eq!(calls, [SelectionCall::SetWayland(clipboard, mimes(&["a/b"]))]);
    assert_eq!(state.x11_new_selection(clipboard, mimes(&["a/b"]), true, true).len(), 2);
    assert_eq!(state.host_send_request(clipboard, true), SelectionCall::RequestX11(clipboard));
    assert_eq!(state.host_send_request(clipboard, false), SelectionCall::Close);
    assert_eq!(state.host_send_request(primary, true), SelectionCall::RequestWayland(primary));
    assert_eq!(state.x11_send_selection(clipboard, true), SelectionCall::Close);
    state.source_cancelled(clipboard);
    assert_eq!(state.clipboard_origin, SelectionOrigin::Wayland);
    state.primary_origin = SelectionOrigin::Host;
    assert_eq!(state.x11_send_selection(primary, true), SelectionCall::RequestHost(primary));
    assert_eq!(
        state.x11_cleared_selection(primary, true),
        [SelectionCall::ClearWayland(primary), SelectionCall::ClearHost(primary)]
    );
}

#[test]
fn the_test_host_hands_the_focus_back() {
    let mut host = HostFocus::new();
    assert_eq!(host.new_selection(SelectionTarget::Clipboard, None), None);
    assert_eq!(host.new_toplevel(SurfaceId(1)), SurfaceId(1));
    assert_eq!(host.new_toplevel(SurfaceId(2)), SurfaceId(2));
    assert_eq!(
        host.new_selection(SelectionTarget::Clipboard, Some(SurfaceId(2))),
        Some(SurfaceId(1))
    );
    assert_eq!(host.new_selection(SelectionTarget::Clipboard, Some(SurfaceId(1))), None);
    assert_eq!(host.new_selection(SelectionTarget::Primary, Some(SurfaceId(2))), None);
    assert_eq!(leftover_files(Some(4)), ["/tmp/.X11-unix/X4", "/tmp/.X4-lock"]);
    assert!(leftover_files(None).is_empty());
}

#[test]
fn prefix_keys_give_emacs_the_focus() {
    assert!(is_prefix_key(true, false, Some(KEY_X)));
    assert!(is_prefix_key(true, false, Some(KEY_C)));
    assert!(!is_prefix_key(false, false, Some(KEY_C)));
    let mut input = InputState::new();
    assert!(input.may_focus_new_window());
    let key = InputEvent::Keyboard {
        ctrl: true,
        alt: false,
        key: Some(KEY_X),
        focus: Some(APP),
        emacs: Some(EMACS),
    };
    assert_eq!(
        input.process_input_event(&key),
        InputAction::ForwardKey { set_focus: Some(EMACS) }
    );
    assert_eq!(input.prefix_saved_focus, Some(Some(APP)));
    assert!(!input.may_focus_new_window());
}

fn button(pressed: bool, on_label: bool) -> InputEvent {
    InputEvent::PointerButton(Button {
        pressed,
        left: true,
        on_skeleton_label: on_label,
        grabbed: false,
        under: Some(Target { surface: APP, client: 2, app: Some(5) }),
        mirror: None,
        emacs: Some(Target { surface: EMACS, client: 1, app: None }),
        focused_client: Some(1),
    })
}

#[test]
fn an_absorbed_press_absorbs_its_release() {
    let mut input = InputState::new();
    assert_eq!(
        input.process_input_event(&button(true, true)),
        InputAction::Button(ButtonAction::Absorb)
    );
    assert_eq!(
        input.process_input_event(&button(false, false)),
        InputAction::Button(ButtonAction::Absorb)
    );
    match input.process_input_event(&button(true, false)) {
        InputAction::Button(ButtonAction::Deliver(d)) => {
            assert_eq!(d.focus_view, Some(ViewRef { window_id: 5, view_id: 0 }));
        }
        other => panic!("{other:?}"),
    }
}

#[test]
fn locked_pointers_stay() {
    let mut motion = Motion {
        under: Some((APP, Point { x: 5, y: 5 })),
        focus: Some(APP),
        constraint: Some(Constraint { kind: ConstraintKind::Locked, region: None }),
        before: Some(Point { x: 4, y: 4 }),
        inactive: None,
    };
    assert_eq!(pointer_motion(&motion), MotionAction::Hold);
    motion.constraint = Some(Constraint {
        kind: ConstraintKind::Confined,
        region: Some(Region {
            rects: vec![(RectangleKind::Add, Rect { x: 0, y: 0, w: 5, h: 5 })],
        }),
    });
    assert_eq!(pointer_motion(&motion), MotionAction::Hold);
    motion.constraint = None;
    assert_eq!(pointer_motion(&motion), MotionAction::Move { activate: false });
}

#[test]
fn regions_add_and_subtract() {
    let region = Region {
        rects: vec![
            (RectangleKind::Add, Rect { x: 0, y: 0, w: 10, h: 10 }),
            (RectangleKind::Subtract, Rect { x: 2, y: 2, w: 2, h: 2 }),
        ],
    };
    assert!(region.contains(Point { x: 1, y: 1 }));
    assert!(!region.contains(Point { x: 3, y: 3 }));
    assert!(!region.contains(Point { x: 10, y: 1 }));
}

#[test]
fn popups_respect_other_grabs() {
    let free = GrabHolder { grabbed: false, by_request: false, by_parent: false };
    let taken = GrabHolder { grabbed: true, ..free };
    assert!(popup_grab(Some(free), Some(free)).pointer);
    assert!(popup_grab(Some(taken), Some(free)).ungrab);
    let late = popup_grab(Some(free), Some(taken));
    assert!(late.keyboard && !late.pointer && late.ungrab);
    let target = popup_target(
        Rect { x: 0, y: 0, w: 100, h: 50 },
        Point { x: 3, y: 4 },
        Point { x: 10, y: 20 },
    );
    assert_eq!(target, Rect { x: -13, y: -24, w: 100, h: 50 });
}

#[test]
fn first_commits_are_answered() {
    assert_eq!(
        handle_surface_commit(Some(false), None),
        FirstConfigures { toplevel: true, popup: false }
    );
    assert_eq!(
        handle_surface_commit(Some(true), Some(false)),
        FirstConfigures { toplevel: false, popup: true }
    );
}

#[test]
fn emacs_rectangles_move_with_emacs() {
    let rect = Rect { x: 1, y: 2, w: 3, h: 4 };
    assert_eq!(
        emacs_rect_to_canvas(rect, Some(Point { x: 0, y: 28 })),
        Rect { x: 1, y: 30, w: 3, h: 4 }
    );
    assert_eq!(emacs_rect_to_canvas(rect, None), rect);
}
