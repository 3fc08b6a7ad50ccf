//! Windows of X clients.
//!
//! An X window is known by an identifier from the moment it is created; the
//! surface with its contents may come later.

use crate::geometry::{max, Point, Rect, Size};
use crate::input::SurfaceId;
use crate::shell::origin;
use crate::state::{auto_focus_requests, AppWindow, EmskinState, OutgoingMessage, Request};
use crate::workspace::Workspace;
use vstd::prelude::*;

verus! {

/// A rectangle whose sides are at least one pixel long.
pub open spec fn at_least_a_pixel(r: Rect) -> Rect {
    Rect { w: max(r.w as int, 1) as i32, h: max(r.h as int, 1) as i32, ..r }
}

fn make_visible(r: Rect) -> (s: Rect)
    ensures
        s == at_least_a_pixel(r),
{
    let size = Size { w: r.w, h: r.h }.at_least(Size { w: 1, h: 1 });
    Rect { x: r.x, y: r.y, w: size.w, h: size.h }
}

/// The whole output.
pub open spec fn whole(output: Size) -> Rect {
    Rect { x: 0, y: 0, w: output.w, h: output.h }
}

/// The geometry that an X window gets when it asks for another width or
/// height: an Emacs window keeps to the output, and has none without one.
pub open spec fn requested_geometry(
    is_emacs: bool,
    output: Option<Size>,
    geometry: Rect,
    w: Option<u32>,
    h: Option<u32>,
) -> Option<Rect> {
    if is_emacs {
        match output {
            Some(size) => Some(whole(size)),
            None => None,
        }
    } else {
        Some(
            at_least_a_pixel(
                Rect {
                    w: match w {
                        Some(w) => w as i32,
                        None => geometry.w,
                    },
                    h: match h {
                        Some(h) => h as i32,
                        None => geometry.h,
                    },
                    ..geometry
                },
            ),
        )
    }
}

impl<S> EmskinState<S> {
    /// Whether a new X window is the first Emacs frame: the first one that is
    /// not override-redirect, while Emacs has not got its first size.
    pub open spec fn is_first_x11_emacs(&self, override_redirect: bool) -> bool {
        self.detect_emacs && !self.initial_size_settled && !override_redirect
    }

    /// What a new X window asks for.
    pub open spec fn map_requests(
        &self,
        window: SurfaceId,
        override_redirect: bool,
        title: String,
        geometry: Rect,
        output: Option<Size>,
    ) -> Seq<Request> {
        let workspace = self.workspaces.active_id;
        if self.is_first_x11_emacs(override_redirect) {
            (match output {
                Some(size) => seq![
                    Request::ConfigureX11 { window, geometry: whole(size) },
                    Request::Send(OutgoingMessage::SurfaceSize { width: size.w, height: size.h }),
                ],
                None => seq![],
            }) + seq![
                Request::Place { surface: window, workspace, at: origin() },
                Request::Focus(Some(window)),
            ]
        } else {
            seq![
                Request::Place {
                    surface: window,
                    workspace,
                    at: Point { x: geometry.x, y: geometry.y },
                },
                Request::Send(
                    OutgoingMessage::WindowCreated { window_id: self.next_window_id, title },
                ),
            ] + auto_focus_requests(self.input, window, self.next_window_id)
        }
    }

    /// An X window asks to be mapped. `wl_surface` is its surface, where it has
    /// one already. The first one is Emacs; any other is an embedded window,
    /// visible at the place it asks for.
    pub fn map_window_request(
        &mut self,
        window: SurfaceId,
        wl_surface: Option<SurfaceId>,
        override_redirect: bool,
        title: String,
        geometry: Rect,
        output: Option<Size>,
    ) -> (r: Vec<Request>)
        requires
            old(self).next_window_id < u64::MAX,
        ensures
            r@ == old(self).map_requests(window, override_redirect, title, geometry, output),
            if old(self).is_first_x11_emacs(override_redirect) {
                &&& final(self).workspaces.arrangement().inactive == old(
                    self,
                ).workspaces.arrangement().inactive
                &&& final(self).workspaces.active == (Workspace {
                    emacs_surface: wl_surface,
                    ..old(self).workspaces.active
                })
                &&& final(self).workspaces.active_id == old(self).workspaces.active_id
                &&& final(self).workspaces.next_id == old(self).workspaces.next_id
                &&& *final(self) == (EmskinState {
                    workspaces: final(self).workspaces,
                    emacs_x11_window: Some(window),
                    initial_size_settled: true,
                    ..*old(self)
                })
            } else {
                &&& final(self).apps@ == old(self).apps@.push(
                    AppWindow {
                        window_id: old(self).next_window_id,
                        surface: window,
                        workspace_id: old(self).workspaces.active_id,
                        geometry: Some(at_least_a_pixel(geometry)),
                        pending_geometry: None,
                        pending_since: None,
                        visible: true,
                    },
                )
                &&& *final(self) == (EmskinState {
                    apps: final(self).apps,
                    next_window_id: (old(self).next_window_id + 1) as u64,
                    ..*old(self)
                })
            },
    {
        let mut requests: Vec<Request> = Vec::new();
        let workspace: u64 = self.workspaces.active_id;
        if self.detect_emacs && !self.initial_size_settled && !override_redirect {
            match output {
                Some(size) => {
                    requests.push(
                        Request::ConfigureX11 {
                            window,
                            geometry: Rect { x: 0, y: 0, w: size.w, h: size.h },
                        },
                    );
                    requests.push(
                        Request::Send(
                            OutgoingMessage::SurfaceSize { width: size.w, height: size.h },
                        ),
                    );
                },
                None => {},
            }
            self.workspaces.active.emacs_surface = wl_surface;
            requests.push(
                Request::Place { surface: window, workspace, at: Point { x: 0, y: 0 } },
            );
            self.emacs_x11_window = Some(window);
            self.initial_size_settled = true;
            requests.push(Request::Focus(Some(window)));
        } else {
            let window_id: u64 = self.next_window_id;
            self.next_window_id = window_id + 1;
            requests.push(
                Request::Place {
                    surface: window,
                    workspace,
                    at: Point { x: geometry.x, y: geometry.y },
                },
            );
            self.apps.push(
                AppWindow {
                    window_id,
                    surface: window,
                    workspace_id: workspace,
                    geometry: Some(make_visible(geometry)),
                    pending_geometry: None,
                    pending_since: None,
                    visible: true,
                },
            );
            requests.push(Request::Send(OutgoingMessage::WindowCreated { window_id, title }));
            let mut focus = self.auto_focus_new_window(window, window_id);
            requests.append(&mut focus);
        }
        assert(requests@ =~= old(self).map_requests(
            window,
            override_redirect,
            title,
            geometry,
            output,
        ));
        requests
    }

    /// An X window asks for another width or height. Gives the geometry to
    /// configure it with, if any.
    pub fn configure_request(
        &self,
        window: SurfaceId,
        geometry: Rect,
        w: Option<u32>,
        h: Option<u32>,
        output: Option<Size>,
    ) -> (r: Option<Rect>)
        ensures
            r == requested_geometry(
                self.emacs_x11_window == Some(window),
                output,
                geometry,
                w,
                h,
            ),
    {
        let is_emacs = match self.emacs_x11_window {
            Some(emacs) => emacs == window,
            None => false,
        };
        if is_emacs {
            return match output {
                Some(size) => Some(Rect { x: 0, y: 0, w: size.w, h: size.h }),
                None => None,
            };
        }
        let width: i32 = match w {
            Some(w) => #[verifier::truncate] (w as i32),
            None => geometry.w,
        };
        let height: i32 = match h {
            Some(h) => #[verifier::truncate] (h as i32),
            None => geometry.h,
        };
        Some(make_visible(Rect { x: geometry.x, y: geometry.y, w: width, h: height }))
    }
}

/// A window of the active workspace reports its own geometry. Gives where to
/// place it: only override-redirect windows place themselves.
pub fn configure_notify(override_redirect: bool, placed: bool, geometry: Rect) -> (r: Option<Point>)
    ensures
        r == if override_redirect && placed {
            Some(Point { x: geometry.x, y: geometry.y })
        } else {
            None
        },
{
    if override_redirect && placed {
        Some(Point { x: geometry.x, y: geometry.y })
    } else {
        None
    }
}

/// No request of an X window makes it smaller than a pixel, Emacs aside.
pub proof fn embedded_windows_stay_visible(
    output: Option<Size>,
    geometry: Rect,
    w: Option<u32>,
    h: Option<u32>,
)
    ensures
        requested_geometry(false, output, geometry, w, h) matches Some(r) && r.w >= 1 && r.h >= 1
            && r.x == geometry.x && r.y == geometry.y,
{
}

/// The first X window that is a window of its own, while one is awaited, is Emacs:
/// it covers the output, stands at the origin and has the keyboard.
pub proof fn the_first_x11_window_is_emacs<S>(
    s: &mut EmskinState<S>,
    window: SurfaceId,
    wl_surface: Option<SurfaceId>,
    title: String,
    geometry: Rect,
    output: Option<Size>,
    r: Vec<Request>,
)
    requires
        call_ensures(
            EmskinState::<S>::map_window_request,
            (s, window, wl_surface, false, title, geometry, output),
            r,
        ),
        old(s).detect_emacs,
        !old(s).initial_size_settled,
    ensures
        final(s).initial_size_settled,
        final(s).emacs_x11_window == Some(window),
        final(s).workspaces.active.emacs_surface == wl_surface,
        final(s).workspaces.active_id == old(s).workspaces.active_id,
        final(s).apps@ == old(s).apps@,
        final(s).next_window_id == old(s).next_window_id,
        ({
            let n = r@.len() as int;
            &&& n == if output is Some { 4int } else { 2 }
            &&& output matches Some(size) ==> {
                &&& r@[0] is ConfigureX11 && r@[0]->ConfigureX11_window == window
                &&& r@[0]->ConfigureX11_geometry == (Rect { x: 0, y: 0, w: size.w, h: size.h })
                &&& r@[1] == Request::Send(
                    OutgoingMessage::SurfaceSize { width: size.w, height: size.h },
                )
            }
            &&& r@[n - 2] is Place && r@[n - 2]->Place_surface == window
            &&& r@[n - 2]->Place_workspace == old(s).workspaces.active_id
            &&& r@[n - 2]->Place_at.x == 0 && r@[n - 2]->Place_at.y == 0
            &&& r@[n - 1] == Request::Focus(Some(window))
        }),
{
}

/// Any other X window, and one that places itself, is an embedded window of the
/// active workspace under a new number: visible where it asks to be, at least a
/// pixel large. Emacs is told of it, and it takes the keyboard unless a key
/// sequence runs.
pub proof fn other_x11_windows_are_embedded<S>(
    s: &mut EmskinState<S>,
    window: SurfaceId,
    wl_surface: Option<SurfaceId>,
    override_redirect: bool,
    title: String,
    geometry: Rect,
    output: Option<Size>,
    r: Vec<Request>,
)
    requires
        call_ensures(
            EmskinState::<S>::map_window_request,
            (s, window, wl_surface, override_redirect, title, geometry, output),
            r,
        ),
        override_redirect || !old(s).detect_emacs || old(s).initial_size_settled,
        old(s).next_window_id < u64::MAX,
    ensures
        final(s).apps@.len() == old(s).apps@.len() + 1,
        final(s).apps@.drop_last() == old(s).apps@,
        ({
            let a = final(s).apps@.last();
            &&& a.window_id == old(s).next_window_id && a.surface == window
            &&& a.workspace_id == old(s).workspaces.active_id
            &&& a.pending_geometry is None && a.pending_since is None
            &&& a.visible
            &&& a.geometry matches Some(g) && {
                &&& g.x == geometry.x && g.y == geometry.y
                &&& geometry.w >= 1 ==> g.w == geometry.w
                &&& geometry.w < 1 ==> g.w == 1
                &&& geometry.h >= 1 ==> g.h == geometry.h
                &&& geometry.h < 1 ==> g.h == 1
            }
        }),
        final(s).next_window_id == old(s).next_window_id + 1,
        final(s).workspaces == old(s).workspaces,
        final(s).emacs_x11_window == old(s).emacs_x11_window,
        final(s).initial_size_settled == old(s).initial_size_settled,
        ({
            let n = r@.len() as int;
            let id = old(s).next_window_id;
            let free = old(s).input.prefix_saved_focus is None;
            &&& n == if free { 4int } else { 3 }
            &&& r@[0] is Place && r@[0]->Place_surface == window
            &&& r@[0]->Place_workspace == old(s).workspaces.active_id
            &&& r@[0]->Place_at.x == geometry.x && r@[0]->Place_at.y == geometry.y
            &&& r@[1] == Request::Send(OutgoingMessage::WindowCreated { window_id: id, title })
            &&& free ==> r@[2] == Request::Focus(Some(window))
            &&& (r@[n - 1] matches Request::Send(OutgoingMessage::FocusView(v)) && v.window_id
                == id && v.view_id == 0)
        }),
{
    assert(final(s).apps@.drop_last() =~= old(s).apps@);
}

/// Emacs keeps to the output whatever size it asks for; any other window gets the
/// width and the height it asks for, keeps those that it does not name, and is at
/// least a pixel large.
pub proof fn x11_windows_get_the_size_they_ask_for<S>(
    s: EmskinState<S>,
    window: SurfaceId,
    geometry: Rect,
    w: Option<u32>,
    h: Option<u32>,
    output: Option<Size>,
    r: Option<Rect>,
)
    requires
        call_ensures(EmskinState::<S>::configure_request, (&s, window, geometry, w, h, output), r),
    ensures
        s.emacs_x11_window == Some(window) ==> {
            &&& output is None ==> r is None
            &&& output matches Some(size) ==> r == Some(
                Rect { x: 0, y: 0, w: size.w, h: size.h },
            )
        },
        s.emacs_x11_window != Some(window) ==> (r matches Some(g) && {
            &&& g.x == geometry.x && g.y == geometry.y
            &&& w matches Some(n) ==> 1 <= n <= i32::MAX ==> g.w == n
            &&& h matches Some(n) ==> 1 <= n <= i32::MAX ==> g.h == n
            &&& w is None && geometry.w >= 1 ==> g.w == geometry.w
            &&& h is None && geometry.h >= 1 ==> g.h == geometry.h
            &&& w == Some(0u32) ==> g.w == 1
            &&& h == Some(0u32) ==> g.h == 1
            &&& g.w >= 1 && g.h >= 1
        }),
{
}

/// Only a window that places itself, and stands in the active workspace, is moved
/// where it says.
pub proof fn windows_that_place_themselves(
    override_redirect: bool,
    placed: bool,
    geometry: Rect,
    r: Option<Point>,
)
    requires
        call_ensures(configure_notify, (override_redirect, placed, geometry), r),
    ensures
        !override_redirect || !placed ==> r is None,
        override_redirect && placed ==> (r matches Some(p) && p.x == geometry.x && p.y
            == geometry.y),
{
}

} // verus!
