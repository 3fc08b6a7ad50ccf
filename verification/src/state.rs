//! The state of the compositor and the operations that cut across it.
//!
//! Surfaces and windows are known by their [`SurfaceId`]. What has to be done
//! outside (messages to Emacs, focus changes, mapping of windows) comes back
//! as a list of [`Request`]s, to be carried out in order.

use crate::geometry::{Point, Rect, Size};
use crate::ime::ImeBridge;
use crate::input::{InputState, SurfaceId, ViewRef};
use crate::workspace::{Workspace, WorkspaceState};
use vstd::prelude::*;

verus! {

/// A message to Emacs.
#[derive(Debug, Clone, PartialEq, Eq)]
pub enum OutgoingMessage {
    SurfaceSize { width: i32, height: i32 },
    WindowCreated { window_id: u64, title: String },
    WindowDestroyed { window_id: u64 },
    TitleChanged { window_id: u64, title: String },
    FocusView(ViewRef),
    WorkspaceCreated { workspace_id: u64 },
    WorkspaceSwitched { workspace_id: u64 },
    WorkspaceDestroyed { workspace_id: u64 },
    /// X clients can connect to this display.
    XWaylandReady { display: u32 },
    /// A recording ended; `duration` in nanoseconds.
    RecordingStopped { path: String, frames_written: u64, duration: u64, reason: String },
}

/// Something to be done outside.
#[derive(Debug, Clone, PartialEq, Eq)]
pub enum Request {
    Send(OutgoingMessage),
    /// Move keyboard focus.
    Focus(Option<SurfaceId>),
    /// Take pointer focus from whatever has it.
    ClearPointerFocus,
    /// Disable and empty the skeleton overlay and forget the caret.
    ResetOverlays,
    /// Configure a toplevel with this size, fullscreen or not; at once, or with
    /// its first commit.
    Configure { surface: SurfaceId, size: Size, fullscreen: bool, at_once: bool },
    /// Configure an X window.
    ConfigureX11 { window: SurfaceId, geometry: Rect },
    /// Resize an Emacs toplevel and place it in this area of its workspace,
    /// below all other windows.
    Relayout { surface: SurfaceId, workspace: u64, area: Rect },
    /// Put a window into a workspace.
    Place { surface: SurfaceId, workspace: u64, at: Point },
    /// Put a window below all others of the active workspace.
    Lower(SurfaceId),
    /// Take a window out of a workspace.
    Withdraw { surface: SurfaceId, workspace: u64 },
    /// Leave the event loop.
    Stop,
}

/// An embedded program's window.
#[derive(Debug, Clone, Copy, PartialEq, Eq, Structural)]
pub struct AppWindow {
    pub window_id: u64,
    pub surface: SurfaceId,
    pub workspace_id: u64,
    /// Where Emacs wants the window; `None` until it said so.
    pub geometry: Option<Rect>,
    /// A geometry that waits for the client to follow.
    pub pending_geometry: Option<Rect>,
    /// Since when it waits.
    pub pending_since: Option<u64>,
    pub visible: bool,
}

/// What draws the pointer.
#[derive(Debug, Clone, Copy, PartialEq, Eq, Structural)]
pub enum CursorStatus {
    /// The host's default cursor.
    Default,
    /// Another cursor of the host.
    Named,
    Hidden,
    /// A client's surface.
    Surface(SurfaceId),
}

/// A command to run once the display for X clients is known.
#[derive(Debug, Clone, PartialEq, Eq)]
pub struct PendingCommand {
    pub command: String,
    pub args: Vec<String>,
    pub standalone: bool,
}

#[derive(Debug)]
pub struct EmskinState<S> {
    pub workspaces: WorkspaceState<S>,
    pub apps: Vec<AppWindow>,
    pub next_window_id: u64,
    pub input: InputState,
    pub ime: ImeBridge,
    /// The keyboard focus to restore when a layer surface goes away.
    pub layer_saved_focus: Option<SurfaceId>,
    pub cursor_status: CursorStatus,
    pub cursor_changed: bool,
    /// Emacs has got its first size.
    pub initial_size_settled: bool,
    /// The first toplevel is taken to be Emacs.
    pub detect_emacs: bool,
    /// Requests to forward to the host window.
    pub pending_fullscreen: Option<bool>,
    pub pending_maximize: Option<bool>,
    pub emacs_title: Option<String>,
    pub emacs_app_id: Option<String>,
    /// The window of an Emacs that is an X client.
    pub emacs_x11_window: Option<SurfaceId>,
    /// Emacs toplevels that wait to be known as frames or child frames.
    pub pending_emacs_toplevels: Vec<SurfaceId>,
    pub needs_redraw: bool,
}

/// The windows that are not in workspace `ws`.
pub open spec fn apps_outside(apps: Seq<AppWindow>, ws: u64) -> Seq<AppWindow> {
    apps.filter(|a: AppWindow| a.workspace_id != ws)
}

/// The identifiers of the windows in workspace `ws`, in order.
pub open spec fn app_ids_in(apps: Seq<AppWindow>, ws: u64) -> Seq<u64>
    decreases apps.len(),
{
    if apps.len() == 0 {
        seq![]
    } else if apps.last().workspace_id == ws {
        app_ids_in(apps.drop_last(), ws).push(apps.last().window_id)
    } else {
        app_ids_in(apps.drop_last(), ws)
    }
}

/// The place of window `id` in the list; none where it is not in it.
pub open spec fn app_index(apps: Seq<AppWindow>, id: u64) -> Option<int>
    decreases apps.len(),
{
    if apps.len() == 0 {
        None
    } else if app_index(apps.drop_last(), id) is Some {
        app_index(apps.drop_last(), id)
    } else if apps.last().window_id == id {
        Some(apps.len() - 1)
    } else {
        None
    }
}

/// The first window with `id`.
fn find_app(apps: &Vec<AppWindow>, id: u64) -> (r: Option<usize>)
    ensures
        match r {
            Some(i) => app_index(apps@, id) == Some(i as int) && i < apps@.len()
                && apps@[i as int].window_id == id,
            None => app_index(apps@, id) is None,
        },
{
    let mut i: usize = 0;
    assert(apps@.take(0) =~= seq![]);
    while i < apps.len()
        invariant
            i <= apps@.len(),
            app_index(apps@.take(i as int), id) is None,
        decreases apps@.len() - i,
    {
        assert(apps@.take(i + 1).drop_last() =~= apps@.take(i as int));
        if apps[i].window_id == id {
            proof {
                lemma_app_index_extends(apps@, id, i + 1);
            }
            return Some(i);
        }
        i += 1;
    }
    assert(apps@.take(i as int) =~= apps@);
    None
}

/// A place found in a prefix is the place in the list.
proof fn lemma_app_index_extends(apps: Seq<AppWindow>, id: u64, n: int)
    requires
        0 <= n <= apps.len(),
        app_index(apps.take(n), id) is Some,
    ensures
        app_index(apps, id) == app_index(apps.take(n), id),
    decreases apps.len(),
{
    if n < apps.len() {
        assert(apps.drop_last().take(n) =~= apps.take(n));
        lemma_app_index_extends(apps.drop_last(), id, n);
    } else {
        assert(apps.take(n) =~= apps);
    }
}

/// What a switch to workspace `target`, with Emacs surface `emacs`, asks for.
/// Emacs is told before focus moves, so that it knows the active workspace
/// when its focus hooks run.
pub open spec fn switch_requests(target: u64, emacs: Option<SurfaceId>) -> Seq<Request> {
    seq![
        Request::ResetOverlays,
        Request::Send(OutgoingMessage::WorkspaceSwitched { workspace_id: target }),
        Request::Focus(emacs),
        Request::ClearPointerFocus,
    ]
}

impl<S> EmskinState<S> {
    pub fn new(space: S, detect_emacs: bool) -> (r: EmskinState<S>)
        ensures
            r.workspaces.wf(),
            r.workspaces.active_id == 1,
            r.workspaces.next_id == 2,
            r.workspaces.active.space == space,
            r.workspaces.active.emacs_surface is None,
            r.workspaces.active.name@ == Seq::<char>::empty(),
            r.workspaces.inactive@ == Map::<u64, Workspace<S>>::empty(),
            r.apps@ == Seq::<AppWindow>::empty(),
            r.next_window_id == 1,
            r.input == (InputState { prefix_saved_focus: None, skeleton_click_absorbed: false }),
            r.ime == (ImeBridge {
                focused_surface: None,
                ime_enabled: None,
                last_committed: None,
            }),
            r.layer_saved_focus is None,
            r.cursor_status == CursorStatus::Default,
            !r.cursor_changed,
            !r.initial_size_settled,
            r.detect_emacs == detect_emacs,
            r.pending_fullscreen is None,
            r.pending_maximize is None,
            r.emacs_title is None,
            r.emacs_app_id is None,
            r.emacs_x11_window is None,
            r.pending_emacs_toplevels@ == Seq::<SurfaceId>::empty(),
            r.needs_redraw,
    {
        EmskinState {
            workspaces: WorkspaceState::new(space),
            apps: Vec::new(),
            next_window_id: 1,
            input: InputState::new(),
            ime: ImeBridge::new(),
            layer_saved_focus: None,
            cursor_status: CursorStatus::Default,
            cursor_changed: false,
            initial_size_settled: false,
            detect_emacs,
            pending_fullscreen: None,
            pending_maximize: None,
            emacs_title: None,
            emacs_app_id: None,
            emacs_x11_window: None,
            pending_emacs_toplevels: Vec::new(),
            needs_redraw: true,
        }
    }

    /// The state with these workspaces after a switch: everything that refers to
    /// the surfaces of the workspace that was left is forgotten.
    pub open spec fn switched_to(self, workspaces: WorkspaceState<S>) -> EmskinState<S> {
        EmskinState {
            workspaces,
            input: InputState { prefix_saved_focus: None, skeleton_click_absorbed: false },
            layer_saved_focus: None,
            ime: ImeBridge { focused_surface: None, ..self.ime.resynced(false) },
            cursor_status: if self.cursor_status is Surface {
                CursorStatus::Default
            } else {
                self.cursor_status
            },
            cursor_changed: self.cursor_changed || self.cursor_status is Surface,
            ..self
        }
    }

    /// Makes another workspace the active one. Everything that refers to the
    /// surfaces of the one that is left is forgotten. Nothing happens where
    /// the target is active already or does not exist.
    pub fn switch_workspace(&mut self, target_id: u64) -> (r: Vec<Request>)
        requires
            old(self).workspaces.wf(),
        ensures
            final(self).workspaces.wf(),
            final(self).workspaces.all() == old(self).workspaces.all(),
            final(self).workspaces.next_id == old(self).workspaces.next_id,
            if old(self).workspaces.inactive@.contains_key(target_id) {
                &&& r@ == switch_requests(
                    target_id,
                    old(self).workspaces.inactive@[target_id].emacs_surface,
                )
                &&& final(self).workspaces.arrangement() == old(
                    self,
                ).workspaces.arrangement().switched(target_id)
                &&& *final(self) == old(self).switched_to(final(self).workspaces)
            } else {
                &&& r@ == Seq::<Request>::empty()
                &&& final(self).workspaces.arrangement() == old(self).workspaces.arrangement()
                &&& *final(self) == (EmskinState {
                    workspaces: final(self).workspaces,
                    ..*old(self)
                })
            },
    {
        let mut requests: Vec<Request> = Vec::new();
        if !self.workspaces.switch_workspace(target_id) {
            return requests;
        }
        self.input.prefix_saved_focus = None;
        self.input.skeleton_click_absorbed = false;
        self.layer_saved_focus = None;
        self.ime.reset_on_workspace_switch();
        match self.cursor_status {
            CursorStatus::Surface(_) => {
                self.cursor_status = CursorStatus::Default;
                self.cursor_changed = true;
            },
            _ => {},
        }
        requests.push(Request::ResetOverlays);
        requests.push(
            Request::Send(OutgoingMessage::WorkspaceSwitched { workspace_id: target_id }),
        );
        requests.push(Request::Focus(self.workspaces.active.emacs_surface));
        requests.push(Request::ClearPointerFocus);
        requests
    }

    /// Removes a workspace that is not active, with the embedded windows in it.
    /// Gives the workspace and the messages that tell Emacs of the windows.
    pub fn destroy_workspace(&mut self, workspace_id: u64) -> (r: Option<
        (Workspace<S>, Vec<Request>),
    >)
        requires
            old(self).workspaces.wf(),
        ensures
            final(self).workspaces.wf(),
            match r {
                Some((ws, requests)) => {
                    &&& old(self).workspaces.inactive@.contains_key(workspace_id)
                    &&& ws == old(self).workspaces.inactive@[workspace_id]
                    &&& final(self).workspaces.all() == old(self).workspaces.all().remove(
                        workspace_id,
                    )
                    &&& final(self).apps@ == apps_outside(old(self).apps@, workspace_id)
                    &&& requests@ == app_ids_in(old(self).apps@, workspace_id).map_values(
                        |id: u64|
                            Request::Send(OutgoingMessage::WindowDestroyed { window_id: id }),
                    )
                },
                None => {
                    &&& !old(self).workspaces.inactive@.contains_key(workspace_id)
                    &&& final(self).workspaces.all() == old(self).workspaces.all()
                    &&& final(self).apps == old(self).apps
                },
            },
            final(self).workspaces.inactive@ == old(self).workspaces.inactive@.remove(workspace_id),
            final(self).workspaces.active == old(self).workspaces.active,
            final(self).workspaces.active_id == old(self).workspaces.active_id,
            final(self).workspaces.next_id == old(self).workspaces.next_id,
            *final(self) == (EmskinState {
                workspaces: final(self).workspaces,
                apps: final(self).apps,
                ..*old(self)
            }),
    {
        let ws = match self.workspaces.destroy_workspace(workspace_id) {
            Some(ws) => ws,
            None => return None,
        };
        let mut requests: Vec<Request> = Vec::new();
        let mut kept: Vec<AppWindow> = Vec::new();
        let ghost all = self.apps@;
        let ghost to_request = |id: u64|
            Request::Send(OutgoingMessage::WindowDestroyed { window_id: id });
        let ghost outside = |a: AppWindow| a.workspace_id != workspace_id;
        let mut i: usize = 0;
        proof {
            reveal(Seq::filter);
            assert(all.take(0) =~= seq![]);
            assert(kept@ =~= all.take(0).filter(outside));
            assert(requests@ =~= app_ids_in(all.take(0), workspace_id).map_values(to_request));
        }
        while i < self.apps.len()
            invariant
                i <= all.len(),
                self.apps@ == all,
                outside == (|a: AppWindow| a.workspace_id != workspace_id),
                to_request == (|id: u64|
                    Request::Send(OutgoingMessage::WindowDestroyed { window_id: id })),
                kept@ == all.take(i as int).filter(outside),
                requests@ == app_ids_in(all.take(i as int), workspace_id).map_values(to_request),
            decreases all.len() - i,
        {
            let app = self.apps[i];
            let ghost ids = app_ids_in(all.take(i as int), workspace_id);
            proof {
                assert(all.take(i + 1).drop_last() =~= all.take(i as int));
                assert(all.take(i + 1).last() == app);
                reveal(Seq::filter);
            }
            if app.workspace_id == workspace_id {
                requests.push(
                    Request::Send(OutgoingMessage::WindowDestroyed { window_id: app.window_id }),
                );
                assert(requests@ =~= ids.push(app.window_id).map_values(to_request));
            } else {
                kept.push(app);
            }
            i += 1;
        }
        assert(all.take(i as int) =~= all);
        self.apps = kept;
        Some((ws, requests))
    }

    /// Moves a window to the active workspace. Gives the window's surface and
    /// the workspace it was in, where it was in another one. Its geometry is
    /// forgotten, so that the next one applies at once.
    pub fn migrate_app_to_active(&mut self, window_id: u64) -> (r: Option<(SurfaceId, u64)>)
        ensures
            match app_index(old(self).apps@, window_id) {
                Some(i) => {
                    let app = old(self).apps@[i];
                    if app.workspace_id == old(self).workspaces.active_id {
                        r is None && *final(self) == *old(self)
                    } else {
                        &&& r == Some((app.surface, app.workspace_id))
                        &&& final(self).apps@ == old(self).apps@.update(
                            i,
                            AppWindow {
                                workspace_id: old(self).workspaces.active_id,
                                geometry: None,
                                pending_geometry: None,
                                pending_since: None,
                                ..app
                            },
                        )
                        &&& *final(self) == (EmskinState {
                            apps: final(self).apps,
                            ..*old(self)
                        })
                    }
                },
                None => r is None && *final(self) == *old(self),
            },
    {
        let i: usize = match find_app(&self.apps, window_id) {
            Some(i) => i,
            None => return None,
        };
        let app = self.apps[i];
        if app.workspace_id == self.workspaces.active_id {
            return None;
        }
        self.apps[i] = AppWindow {
            window_id: app.window_id,
            surface: app.surface,
            workspace_id: self.workspaces.active_id,
            geometry: None,
            pending_geometry: None,
            pending_since: None,
            visible: app.visible,
        };
        Some((app.surface, app.workspace_id))
    }

    /// What the auto-focus policy does for a new embedded window: it takes
    /// keyboard focus and Emacs is told; while an Emacs key sequence runs,
    /// Emacs is only told.
    pub fn auto_focus_new_window(&self, surface: SurfaceId, window_id: u64) -> (r: Vec<Request>)
        ensures
            r@ == auto_focus_requests(self.input, surface, window_id),
    {
        let mut requests: Vec<Request> = Vec::new();
        if self.input.may_focus_new_window() {
            requests.push(Request::Focus(Some(surface)));
        }
        requests.push(Request::Send(OutgoingMessage::FocusView(ViewRef { window_id, view_id: 0 })));
        assert(requests@ =~= auto_focus_requests(self.input, surface, window_id));
        requests
    }

    /// Whether `surface` is the Emacs surface of the active workspace.
    pub fn is_emacs_surface(&self, surface: SurfaceId) -> (r: bool)
        ensures
            r == (self.workspaces.active.emacs_surface == Some(surface)),
    {
        match self.workspaces.active.emacs_surface {
            Some(s) => s == surface,
            None => false,
        }
    }

    /// A workspace identifier that was never in use.
    pub fn alloc_workspace_id(&mut self) -> (r: u64)
        requires
            old(self).workspaces.wf(),
            old(self).workspaces.next_id < u64::MAX,
        ensures
            final(self).workspaces.wf(),
            r == old(self).workspaces.next_id,
            !old(self).workspaces.all().contains_key(r),
            *final(self) == (EmskinState {
                workspaces: WorkspaceState {
                    next_id: (r + 1) as u64,
                    ..old(self).workspaces
                },
                ..*old(self)
            }),
    {
        self.workspaces.alloc_id()
    }

    /// The number of workspaces.
    pub fn workspace_count(&self) -> (r: usize)
        requires
            self.workspaces.wf(),
            self.workspaces.inactive@.len() < usize::MAX,
        ensures
            r == self.workspaces.all().len(),
    {
        self.workspaces.count()
    }

    /// The identifiers of all workspaces, ascending.
    pub fn all_workspace_ids(&self) -> (r: Vec<u64>)
        requires
            self.workspaces.wf(),
        ensures
            forall|i: int, j: int| 0 <= i < j < r@.len() ==> r@[i] < r@[j],
            forall|id: u64| r@.contains(id) <==> self.workspaces.all().contains_key(id),
    {
        self.workspaces.all_ids()
    }

    /// Whether `surface` is the Emacs surface of some workspace.
    pub fn is_any_emacs_surface(&self, surface: SurfaceId) -> (r: bool)
        requires
            self.workspaces.wf(),
        ensures
            r == exists|id: u64| #[trigger]
                self.workspaces.all().contains_key(id)
                    && self.workspaces.all()[id].emacs_surface == Some(surface),
    {
        self.workspaces.is_any_emacs_surface(surface)
    }
}

/// The requests of the auto-focus policy.
pub open spec fn auto_focus_requests(input: InputState, surface: SurfaceId, window_id: u64) -> Seq<
    Request,
> {
    (if input.prefix_saved_focus is None {
        seq![Request::Focus(Some(surface))]
    } else {
        seq![]
    }) + seq![
        Request::Send(OutgoingMessage::FocusView(ViewRef { window_id, view_id: 0 })),
    ]
}

/// An Emacs rectangle on the canvas: moved by where Emacs stands.
pub fn emacs_rect_to_canvas(rect: Rect, origin: Option<Point>) -> (r: Rect)
    requires
        origin matches Some(p) ==> i32::MIN <= rect.x + p.x <= i32::MAX && i32::MIN <= rect.y + p.y
            <= i32::MAX,
    ensures
        r == match origin {
            Some(p) => Rect { x: (rect.x + p.x) as i32, y: (rect.y + p.y) as i32, ..rect },
            None => rect,
        },
{
    match origin {
        Some(p) => Rect { x: rect.x + p.x, y: rect.y + p.y, w: rect.w, h: rect.h },
        None => rect,
    }
}

// ---------------------------------------------------------------------------
// What the operations promise
// ---------------------------------------------------------------------------

/// Switching to another workspace makes it the active one and keeps the one that
/// is left, with all that it holds; no workspace is lost or changed. Emacs is told
/// before the keyboard moves to its frame there. Where the target is active or
/// does not exist, nothing is asked for and nothing changes.
pub proof fn switching_keeps_every_workspace<S>(
    s: &mut EmskinState<S>,
    target: u64,
    r: Vec<Request>,
)
    requires
        call_ensures(EmskinState::<S>::switch_workspace, (s, target), r),
        old(s).workspaces.wf(),
    ensures
        ({
            let before = old(s).workspaces;
            let after = final(s).workspaces;
            let known = before.inactive@.contains_key(target);
            &&& known ==> {
                &&& after.active_id == target
                &&& after.active == before.inactive@[target]
                &&& !after.inactive@.contains_key(target)
                &&& after.inactive@.contains_key(before.active_id)
                &&& after.inactive@[before.active_id] == before.active
                &&& forall|id: u64|
                    id != target && id != before.active_id ==> (
                    #[trigger] after.inactive@.contains_key(id)
                        <==> before.inactive@.contains_key(id))
                &&& forall|id: u64|
                    id != target && #[trigger] before.inactive@.contains_key(id)
                        ==> after.inactive@[id] == before.inactive@[id]
                &&& r@.len() == 4
                &&& r@[0] == Request::ResetOverlays
                &&& r@[1] == Request::Send(
                    OutgoingMessage::WorkspaceSwitched { workspace_id: target },
                )
                &&& r@[2] == Request::Focus(before.inactive@[target].emacs_surface)
                &&& r@[3] == Request::ClearPointerFocus
            }
            &&& !known ==> {
                &&& r@.len() == 0
                &&& after.active_id == before.active_id
                &&& after.active == before.active
                &&& after.inactive@ == before.inactive@
            }
            &&& after.next_id == before.next_id
        }),
        final(s).apps@ == old(s).apps@,
        final(s).next_window_id == old(s).next_window_id,
        final(s).needs_redraw == old(s).needs_redraw,
        final(s).pending_emacs_toplevels@ == old(s).pending_emacs_toplevels@,
{
    let before = old(s).workspaces;
    assert(old(s).workspaces.arrangement().inactive == before.inactive@);
    assert(final(s).workspaces.arrangement().inactive == final(s).workspaces.inactive@);
    assert(final(s).workspaces.arrangement().active == final(s).workspaces.active);
    assert(final(s).workspaces.arrangement().active_id == final(s).workspaces.active_id);
}

/// After a switch nothing refers to a surface of the workspace that was left: no
/// key sequence runs, no press is being absorbed, no focus waits to be restored,
/// the input method has no surface, and no client draws the pointer. A host
/// cursor stays.
pub proof fn switching_forgets_the_old_surfaces<S>(
    s: &mut EmskinState<S>,
    target: u64,
    r: Vec<Request>,
)
    requires
        call_ensures(EmskinState::<S>::switch_workspace, (s, target), r),
        old(s).workspaces.wf(),
        old(s).workspaces.inactive@.contains_key(target),
    ensures
        final(s).input.prefix_saved_focus is None,
        !final(s).input.skeleton_click_absorbed,
        final(s).layer_saved_focus is None,
        final(s).ime.focused_surface is None,
        old(s).cursor_status is Surface ==> final(s).cursor_status == CursorStatus::Default
            && final(s).cursor_changed,
        !(old(s).cursor_status is Surface) ==> final(s).cursor_status == old(s).cursor_status
            && final(s).cursor_changed == old(s).cursor_changed,
{
}

/// Destroying a workspace removes it with the windows in it, tells Emacs of each
/// of those in order, and leaves every other workspace and window alone. The
/// active one, and one that does not exist, is not destroyed.
pub proof fn destroying_takes_the_windows_along<S>(
    s: &mut EmskinState<S>,
    ws: u64,
    r: Option<(Workspace<S>, Vec<Request>)>,
)
    requires
        call_ensures(EmskinState::<S>::destroy_workspace, (s, ws), r),
        old(s).workspaces.wf(),
    ensures
        r is Some <==> old(s).workspaces.inactive@.contains_key(ws),
        r is None ==> final(s).apps@ == old(s).apps@,
        final(s).workspaces.active_id == old(s).workspaces.active_id,
        final(s).workspaces.active == old(s).workspaces.active,
        !final(s).workspaces.inactive@.contains_key(ws),
        forall|id: u64|
            id != ws ==> (#[trigger] final(s).workspaces.inactive@.contains_key(id)
                <==> old(s).workspaces.inactive@.contains_key(id)),
        forall|id: u64| #[trigger]
            final(s).workspaces.inactive@.contains_key(id) ==> final(s).workspaces.inactive@[id]
                == old(s).workspaces.inactive@[id],
        r matches Some((gone, requests)) ==> {
            let there = old(s).apps@.filter(|a: AppWindow| a.workspace_id == ws);
            &&& gone == old(s).workspaces.inactive@[ws]
            &&& final(s).apps@ == old(s).apps@.filter(|a: AppWindow| !(a.workspace_id == ws))
            &&& requests@.len() == there.len()
            &&& forall|i: int|
                0 <= i < there.len() ==> #[trigger] requests@[i] == Request::Send(
                    OutgoingMessage::WindowDestroyed { window_id: there[i].window_id },
                )
        },
        final(s).needs_redraw == old(s).needs_redraw,
        final(s).input == old(s).input,
{
    if r is Some {
        lemma_ids_are_filtered(old(s).apps@, ws);
        let apart = |a: AppWindow| a.workspace_id != ws;
        let other = |a: AppWindow| !(a.workspace_id == ws);
        assert(apart =~= other);
    }
}

/// The identifiers of the windows in a workspace are those of the windows that
/// say so.
pub proof fn lemma_ids_are_filtered(apps: Seq<AppWindow>, ws: u64)
    ensures
        app_ids_in(apps, ws).len() == apps.filter(|a: AppWindow| a.workspace_id == ws).len(),
        forall|i: int|
            0 <= i < app_ids_in(apps, ws).len() ==> #[trigger] app_ids_in(apps, ws)[i]
                == apps.filter(|a: AppWindow| a.workspace_id == ws)[i].window_id,
    decreases apps.len(),
{
    reveal(Seq::filter);
    if apps.len() > 0 {
        lemma_ids_are_filtered(apps.drop_last(), ws);
    }
}

/// Moving a window to the active workspace moves the first window with that
/// number there, forgets where it stood, and says what it was taken from. A
/// window that is there already, or is not known, stays, and so does every other
/// window.
pub proof fn migrated_windows_stand_in_the_active_workspace<S>(
    s: &mut EmskinState<S>,
    window_id: u64,
    at: int,
    r: Option<(SurfaceId, u64)>,
)
    requires
        call_ensures(EmskinState::<S>::migrate_app_to_active, (s, window_id), r),
        0 <= at <= old(s).apps@.len(),
        at < old(s).apps@.len() ==> old(s).apps@[at].window_id == window_id,
        forall|i: int| 0 <= i < at ==> (#[trigger] old(s).apps@[i]).window_id != window_id,
    ensures
        final(s).apps@.len() == old(s).apps@.len(),
        forall|i: int|
            0 <= i < old(s).apps@.len() && i != at ==> #[trigger] final(s).apps@[i]
                == old(s).apps@[i],
        at == old(s).apps@.len() ==> r is None,
        at < old(s).apps@.len() ==> {
            let before = old(s).apps@[at];
            let after = final(s).apps@[at];
            let active = old(s).workspaces.active_id;
            &&& after.workspace_id == active
            &&& before.workspace_id == active ==> r is None && after == before
            &&& before.workspace_id != active ==> {
                &&& r == Some((before.surface, before.workspace_id))
                &&& after.geometry is None && after.pending_geometry is None
                &&& after.pending_since is None
                &&& after.surface == before.surface && after.window_id == before.window_id
                &&& after.visible == before.visible
            }
        },
        final(s).workspaces == old(s).workspaces,
        final(s).needs_redraw == old(s).needs_redraw,
{
    lemma_app_index_first(old(s).apps@, window_id, at);
}

/// The place of a window is that of the first with its number.
pub proof fn lemma_app_index_first(apps: Seq<AppWindow>, id: u64, at: int)
    requires
        0 <= at <= apps.len(),
        at < apps.len() ==> apps[at].window_id == id,
        forall|i: int| 0 <= i < at ==> (#[trigger] apps[i]).window_id != id,
    ensures
        app_index(apps, id) == if at < apps.len() {
            Some(at)
        } else {
            None
        },
    decreases apps.len(),
{
    if apps.len() > 0 {
        let rest = apps.drop_last();
        assert forall|i: int| 0 <= i < rest.len() implies rest[i] == apps[i] by {}
        if at < apps.len() {
            lemma_app_index_first(rest, id, at);
        } else {
            lemma_app_index_first(rest, id, at - 1);
        }
    }
}

/// A new window takes the keyboard, unless a key sequence runs; Emacs is told
/// either way, last.
pub proof fn new_windows_take_the_keyboard<S>(
    s: EmskinState<S>,
    surface: SurfaceId,
    window_id: u64,
    r: Vec<Request>,
)
    requires
        call_ensures(EmskinState::<S>::auto_focus_new_window, (&s, surface, window_id), r),
    ensures
        r@.contains(Request::Focus(Some(surface))) <==> s.input.prefix_saved_focus is None,
        r@.len() == if s.input.prefix_saved_focus is None {
            2nat
        } else {
            1nat
        },
        r@.last() == Request::Send(
            OutgoingMessage::FocusView(ViewRef { window_id, view_id: 0 }),
        ),
{
    if s.input.prefix_saved_focus is None {
        assert(r@[0] == Request::Focus(Some(surface)));
    }
}

/// A surface is Emacs's where the active workspace says so, and it is some
/// frame's where any workspace does.
pub proof fn frames_are_told_by_their_surface<S>(
    s: EmskinState<S>,
    surface: SurfaceId,
    active: bool,
    any: bool,
)
    requires
        call_ensures(EmskinState::<S>::is_emacs_surface, (&s, surface), active),
        call_ensures(EmskinState::<S>::is_any_emacs_surface, (&s, surface), any),
    ensures
        active <==> s.workspaces.active.emacs_surface == Some(surface),
        any <==> active || exists|id: u64| #[trigger]
            s.workspaces.inactive@.contains_key(id) && id != s.workspaces.active_id
                && s.workspaces.inactive@[id].emacs_surface == Some(surface),
{
    let all = s.workspaces.all();
    assert(all.contains_key(s.workspaces.active_id));
    assert forall|id: u64| #[trigger] s.workspaces.inactive@.contains_key(id) implies
        all.contains_key(id) by {}
    assert forall|id: u64| #[trigger] all.contains_key(id) implies id == s.workspaces.active_id
        || s.workspaces.inactive@.contains_key(id) by {}
}

/// A rectangle of Emacs is moved by where Emacs stands and keeps its size.
pub proof fn rectangles_move_with_emacs(rect: Rect, origin: Option<Point>, r: Rect)
    requires
        call_ensures(emacs_rect_to_canvas, (rect, origin), r),
        origin matches Some(p) ==> i32::MIN <= rect.x + p.x <= i32::MAX && i32::MIN <= rect.y + p.y
            <= i32::MAX,
    ensures
        r.w == rect.w,
        r.h == rect.h,
        origin matches Some(p) ==> r.x - rect.x == p.x && r.y - rect.y == p.y,
        origin is None ==> r.x == rect.x && r.y == rect.y,
{
}

/// A compositor starts with one workspace and no windows; nothing has the
/// keyboard, and the first frame is to be drawn.
pub proof fn compositors_start_empty<S>(
    space: S,
    detect_emacs: bool,
    s: EmskinState<S>,
    n: usize,
    ids: Vec<u64>,
)
    requires
        call_ensures(EmskinState::<S>::new, (space, detect_emacs), s),
        call_ensures(EmskinState::<S>::workspace_count, (&s,), n),
        call_ensures(EmskinState::<S>::all_workspace_ids, (&s,), ids),
    ensures
        n == 1,
        ids@ == seq![1u64],
        s.workspaces.active.space == space,
        s.workspaces.active.emacs_surface is None,
        s.apps@.len() == 0,
        s.input.prefix_saved_focus is None && !s.input.skeleton_click_absorbed,
        s.ime.focused_surface is None && s.ime.ime_enabled is None,
        s.pending_emacs_toplevels@.len() == 0,
        s.pending_fullscreen is None && s.pending_maximize is None,
        !s.initial_size_settled,
        s.detect_emacs == detect_emacs,
        s.needs_redraw,
{
    assert(s.workspaces.all().dom() =~= vstd::set::Set::<u64>::empty().insert(1u64));
    assert(ids@.contains(1u64) <==> s.workspaces.all().contains_key(1u64));
    assert forall|i: int| 0 <= i < ids@.len() implies #[trigger] ids@[i] == 1 by {
        assert(ids@.contains(ids@[i]));
        assert(s.workspaces.all().contains_key(ids@[i]));
    }
    if ids@.len() > 1 {
        assert(ids@[0] < ids@[1]);
    }
    assert(ids@ =~= seq![1u64]);
}

/// A workspace's identifier is handed out once, and handing it out changes nothing
/// else. The workspaces are counted and listed with the active one.
pub proof fn workspaces_are_counted_and_listed<S>(
    s: &mut EmskinState<S>,
    id: u64,
    n: usize,
    ids: Vec<u64>,
    other: u64,
)
    requires
        call_ensures(EmskinState::<S>::alloc_workspace_id, (s,), id),
        call_ensures(EmskinState::<S>::workspace_count, (&*final(s),), n),
        call_ensures(EmskinState::<S>::all_workspace_ids, (&*final(s),), ids),
        old(s).workspaces.wf(),
        old(s).workspaces.next_id < u64::MAX,
    ensures
        id != old(s).workspaces.active_id,
        !old(s).workspaces.inactive@.contains_key(id),
        final(s).workspaces.next_id > id,
        final(s).workspaces.active == old(s).workspaces.active,
        final(s).workspaces.active_id == old(s).workspaces.active_id,
        final(s).workspaces.inactive == old(s).workspaces.inactive,
        final(s).apps == old(s).apps,
        n == old(s).workspaces.inactive@.dom().len() + 1,
        ids@.contains(other) == (other == old(s).workspaces.active_id || old(
            s,
        ).workspaces.inactive@.contains_key(other)),
        forall|i: int, j: int| 0 <= i < j < ids@.len() ==> ids@[i] < ids@[j],
{
    let w = old(s).workspaces;
    assert(w.all().contains_key(id) == (id == w.active_id || w.inactive@.contains_key(id)));
    assert(final(s).workspaces.all().dom() =~= w.inactive@.dom().insert(w.active_id));
    assert(ids@.contains(other) <==> final(s).workspaces.all().contains_key(other));
}

} // verus!
