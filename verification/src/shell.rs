//! Toplevels and popups: who is Emacs, who is embedded, and what their
//! requests lead to.

use crate::geometry::{clamped_sum, Point, Rect, Size};
use crate::input::{InputState, SurfaceId};
use crate::state::{auto_focus_requests, AppWindow, EmskinState, OutgoingMessage, Request};
use crate::text::{
    before_text, chars_of, find_text, is_white_space, lemma_before_text_cut, lemma_trimmed_cut,
    starts_with_at, string_of, trim_bounds, trimmed, without_prefix,
};
use crate::workspace::Workspace;
use vstd::prelude::*;

verus! {

// ---------------------------------------------------------------------------
// Names
// ---------------------------------------------------------------------------

/// The short name of an Emacs frame title: what stands in front of
/// `" - GNU Emacs"`, trimmed, without a leading `"*eaf: "`.
pub open spec fn bar_name(title: Seq<char>) -> Seq<char> {
    without_prefix(trimmed(before_text(title, " - GNU Emacs"@)), "*eaf: "@)
}

/// The short name of an Emacs frame title for the workspace bar.
pub fn extract_bar_name(title: &str) -> (r: String)
    ensures
        r@ == bar_name(title@),
{
    let chars = chars_of(title);
    let suffix = chars_of(" - GNU Emacs");
    let prefix = chars_of("*eaf: ");
    let end: usize = find_text(chars.as_slice(), suffix.as_slice());
    let (from, to) = trim_bounds(chars.as_slice(), end);
    let base = string_of(chars.as_slice(), from, to);
    let base_chars = chars_of(base.as_str());
    assert(base_chars@.skip(0) =~= base_chars@);
    if starts_with_at(base_chars.as_slice(), 0, prefix.as_slice()) {
        let r = string_of(base_chars.as_slice(), prefix.len(), base_chars.len());
        assert(r@ =~= base_chars@.skip(prefix@.len() as int));
        r
    } else {
        base
    }
}

// ---------------------------------------------------------------------------
// New toplevels
// ---------------------------------------------------------------------------

/// The place of the window with surface `s` in the list.
pub open spec fn app_with_surface(apps: Seq<AppWindow>, s: SurfaceId) -> Option<int>
    decreases apps.len(),
{
    if apps.len() == 0 {
        None
    } else if app_with_surface(apps.drop_last(), s) is Some {
        app_with_surface(apps.drop_last(), s)
    } else if apps.last().surface == s {
        Some(apps.len() - 1)
    } else {
        None
    }
}

/// A place found in a prefix is the place in the list.
proof fn lemma_app_with_surface_extends(apps: Seq<AppWindow>, s: SurfaceId, n: int)
    requires
        0 <= n <= apps.len(),
        app_with_surface(apps.take(n), s) is Some,
    ensures
        app_with_surface(apps, s) == app_with_surface(apps.take(n), s),
    decreases apps.len(),
{
    if n < apps.len() {
        assert(apps.drop_last().take(n) =~= apps.take(n));
        lemma_app_with_surface_extends(apps.drop_last(), s, n);
    } else {
        assert(apps.take(n) =~= apps);
    }
}

/// Who a new toplevel belongs to.
#[derive(Debug, Clone, Copy, PartialEq, Eq, Structural)]
pub enum ToplevelRole {
    /// The first Emacs frame.
    FirstEmacs,
    /// Another toplevel of Emacs: a frame or a child frame.
    EmacsClient,
    /// An embedded program.
    Embedded,
}

/// The origin of the canvas.
pub open spec fn origin() -> Point {
    Point { x: 0, y: 0 }
}

impl<S> EmskinState<S> {
    /// Who a new toplevel belongs to: while Emacs has not got its first size,
    /// the first one is Emacs.
    pub open spec fn toplevel_role(&self, emacs_client: bool) -> ToplevelRole {
        if self.detect_emacs && !self.initial_size_settled {
            ToplevelRole::FirstEmacs
        } else if emacs_client {
            ToplevelRole::EmacsClient
        } else {
            ToplevelRole::Embedded
        }
    }

    /// What a new toplevel asks for. Emacs fills the output and stays below
    /// all other windows; an embedded window starts at one pixel and gets its
    /// size from Emacs.
    pub open spec fn toplevel_requests(
        &self,
        surface: SurfaceId,
        role: ToplevelRole,
        title: String,
        output: Option<Size>,
    ) -> Seq<Request> {
        let place = Request::Place {
            surface,
            workspace: self.workspaces.active_id,
            at: origin(),
        };
        match role {
            ToplevelRole::FirstEmacs => (match output {
                Some(size) => seq![
                    Request::Configure { surface, size, fullscreen: true, at_once: false },
                    Request::Send(
                        OutgoingMessage::SurfaceSize { width: size.w, height: size.h },
                    ),
                ],
                None => seq![],
            }) + seq![place, Request::Lower(surface), Request::Focus(Some(surface))],
            ToplevelRole::EmacsClient => (match output {
                Some(size) => seq![
                    Request::Configure { surface, size, fullscreen: true, at_once: true },
                ],
                None => seq![],
            }) + seq![place, Request::Lower(surface)],
            ToplevelRole::Embedded => seq![
                Request::Configure {
                    surface,
                    size: Size { w: 1, h: 1 },
                    fullscreen: false,
                    at_once: false,
                },
                place,
                Request::Send(
                    OutgoingMessage::WindowCreated { window_id: self.next_window_id, title },
                ),
            ] + auto_focus_requests(self.input, surface, self.next_window_id),
        }
    }

    /// A toplevel was created. `emacs_client` says whether it belongs to the
    /// client of the active Emacs; `output` is the size of the output.
    pub fn new_toplevel(
        &mut self,
        surface: SurfaceId,
        emacs_client: bool,
        title: String,
        output: Option<Size>,
    ) -> (r: Vec<Request>)
        requires
            old(self).next_window_id < u64::MAX,
        ensures
            r@ == old(self).toplevel_requests(
                surface,
                old(self).toplevel_role(emacs_client),
                title,
                output,
            ),
            match old(self).toplevel_role(emacs_client) {
                ToplevelRole::FirstEmacs => {
                    &&& final(self).workspaces.arrangement().inactive == old(
                        self,
                    ).workspaces.arrangement().inactive
                    &&& final(self).workspaces.active == (Workspace {
                        emacs_surface: Some(surface),
                        ..old(self).workspaces.active
                    })
                    &&& final(self).workspaces.active_id == old(self).workspaces.active_id
                    &&& final(self).workspaces.next_id == old(self).workspaces.next_id
                    &&& *final(self) == (EmskinState {
                        workspaces: final(self).workspaces,
                        initial_size_settled: true,
                        ..*old(self)
                    })
                },
                ToplevelRole::EmacsClient => {
                    &&& final(self).pending_emacs_toplevels@ == old(
                        self,
                    ).pending_emacs_toplevels@.push(surface)
                    &&& *final(self) == (EmskinState {
                        pending_emacs_toplevels: final(self).pending_emacs_toplevels,
                        ..*old(self)
                    })
                },
                ToplevelRole::Embedded => {
                    &&& final(self).apps@ == old(self).apps@.push(
                        AppWindow {
                            window_id: old(self).next_window_id,
                            surface,
                            workspace_id: old(self).workspaces.active_id,
                            geometry: None,
                            pending_geometry: None,
                            pending_since: None,
                            visible: false,
                        },
                    )
                    &&& *final(self) == (EmskinState {
                        apps: final(self).apps,
                        next_window_id: (old(self).next_window_id + 1) as u64,
                        ..*old(self)
                    })
                },
            },
    {
        let mut requests: Vec<Request> = Vec::new();
        let workspace: u64 = self.workspaces.active_id;
        let at = Point { x: 0, y: 0 };
        if self.detect_emacs && !self.initial_size_settled {
            self.workspaces.active.emacs_surface = Some(surface);
            match output {
                Some(size) => {
                    requests.push(
                        Request::Configure { surface, size, fullscreen: true, at_once: false },
                    );
                    requests.push(
                        Request::Send(
                            OutgoingMessage::SurfaceSize { width: size.w, height: size.h },
                        ),
                    );
                },
                None => {},
            }
            self.initial_size_settled = true;
            requests.push(Request::Place { surface, workspace, at });
            requests.push(Request::Lower(surface));
            requests.push(Request::Focus(Some(surface)));
        } else if emacs_client {
            match output {
                Some(size) => {
                    requests.push(
                        Request::Configure { surface, size, fullscreen: true, at_once: true },
                    );
                },
                None => {},
            }
            requests.push(Request::Place { surface, workspace, at });
            requests.push(Request::Lower(surface));
            self.pending_emacs_toplevels.push(surface);
        } else {
            let window_id: u64 = self.next_window_id;
            self.next_window_id = window_id + 1;
            requests.push(
                Request::Configure {
                    surface,
                    size: Size { w: 1, h: 1 },
                    fullscreen: false,
                    at_once: false,
                },
            );
            requests.push(Request::Place { surface, workspace, at });
            self.apps.push(
                AppWindow {
                    window_id,
                    surface,
                    workspace_id: workspace,
                    geometry: None,
                    pending_geometry: None,
                    pending_since: None,
                    visible: false,
                },
            );
            requests.push(Request::Send(OutgoingMessage::WindowCreated { window_id, title }));
            let mut focus = self.auto_focus_new_window(surface, window_id);
            requests.append(&mut focus);
        }
        proof {
            let role = old(self).toplevel_role(emacs_client);
            assert(requests@ =~= old(self).toplevel_requests(surface, role, title, output));
        }
        requests
    }

    /// The window that Emacs knows `surface` by.
    pub fn id_for_surface(&self, surface: SurfaceId) -> (r: Option<u64>)
        ensures
            r == match app_with_surface(self.apps@, surface) {
                Some(i) => Some(self.apps@[i].window_id),
                None => None,
            },
    {
        let mut i: usize = 0;
        assert(self.apps@.take(0) =~= seq![]);
        while i < self.apps.len()
            invariant
                i <= self.apps@.len(),
                app_with_surface(self.apps@.take(i as int), surface) is None,
            decreases self.apps@.len() - i,
        {
            assert(self.apps@.take(i + 1).drop_last() =~= self.apps@.take(i as int));
            if self.apps[i].surface == surface {
                proof {
                    lemma_app_with_surface_extends(self.apps@, surface, i + 1);
                }
                return Some(self.apps[i].window_id);
            }
            i += 1;
        }
        assert(self.apps@.take(i as int) =~= self.apps@);
        None
    }

    /// A client asks to be fullscreen. Emacs takes the host window with it; an
    /// embedded program only hides its decorations. Gives whether the state is
    /// acknowledged.
    pub fn fullscreen_request(&mut self, surface: SurfaceId) -> (r: bool)
        ensures
            r == (old(self).workspaces.active.emacs_surface == Some(surface) || app_with_surface(
                old(self).apps@,
                surface,
            ) is Some),
            *final(self) == if old(self).workspaces.active.emacs_surface == Some(surface) {
                EmskinState { pending_fullscreen: Some(true), ..*old(self) }
            } else {
                *old(self)
            },
    {
        if self.is_emacs_surface(surface) {
            self.pending_fullscreen = Some(true);
            true
        } else {
            self.id_for_surface(surface).is_some()
        }
    }

    /// A client asks not to be fullscreen any more. Emacs frames stay as they
    /// are. Gives whether the state is acknowledged.
    pub fn unfullscreen_request(&self, surface: SurfaceId) -> (r: bool)
        requires
            self.workspaces.wf(),
        ensures
            r == (!(exists|id: u64| #[trigger]
                self.workspaces.all().contains_key(id)
                    && self.workspaces.all()[id].emacs_surface == Some(surface))
                && app_with_surface(self.apps@, surface) is Some),
    {
        if self.workspaces.is_any_emacs_surface(surface) {
            false
        } else {
            self.id_for_surface(surface).is_some()
        }
    }

    /// A client asks to be maximised: for Emacs the host window is.
    pub fn maximize_request(&mut self, surface: SurfaceId) -> (r: bool)
        ensures
            r == (old(self).workspaces.active.emacs_surface == Some(surface)),
            *final(self) == if r {
                EmskinState { pending_maximize: Some(true), ..*old(self) }
            } else {
                *old(self)
            },
    {
        if self.is_emacs_surface(surface) {
            self.pending_maximize = Some(true);
            true
        } else {
            false
        }
    }

    /// The application identifier of a toplevel changed. That of the active
    /// Emacs goes to the host window; others are ignored.
    pub fn app_id_changed(&mut self, surface: SurfaceId, app_id: Option<String>)
        ensures
            *final(self) == if old(self).workspaces.active.emacs_surface == Some(surface)
                && app_id is Some {
                EmskinState { emacs_app_id: app_id, ..*old(self) }
            } else {
                *old(self)
            },
    {
        if self.is_emacs_surface(surface) && app_id.is_some() {
            self.emacs_app_id = app_id;
        }
    }

    /// The title of a toplevel changed. That of an Emacs frame names its
    /// workspace, and that of the active one also the host window; Emacs is
    /// told that of an embedded program.
    pub fn title_changed(&mut self, surface: SurfaceId, title: Option<String>) -> (r: Option<
        Request,
    >)
        requires
            old(self).workspaces.wf(),
        ensures
            final(self).workspaces.wf(),
            final(self).workspaces.active_id == old(self).workspaces.active_id,
            final(self).workspaces.next_id == old(self).workspaces.next_id,
            match title {
                None => r is None && *final(self) == *old(self),
                Some(text) => if old(self).workspaces.active.emacs_surface == Some(surface) {
                    &&& r is None
                    &&& final(self).workspaces.active.name@ == bar_name(text@)
                    &&& final(self).workspaces.active.space == old(self).workspaces.active.space
                    &&& final(self).workspaces.active.emacs_surface == Some(surface)
                    &&& final(self).workspaces.inactive@ == old(self).workspaces.inactive@
                    &&& *final(self) == (EmskinState {
                        workspaces: final(self).workspaces,
                        emacs_title: title,
                        ..*old(self)
                    })
                } else if exists|id: u64| #[trigger]
                    old(self).workspaces.inactive@.contains_key(id) && old(
                        self,
                    ).workspaces.inactive@[id].emacs_surface == Some(surface) {
                    &&& r is None
                    &&& final(self).workspaces.active == old(self).workspaces.active
                    &&& exists|id: u64| #[trigger]
                        old(self).workspaces.inactive@.contains_key(id) && renamed(
                            old(self).workspaces.inactive@,
                            final(self).workspaces.inactive@,
                            id,
                            surface,
                            bar_name(text@),
                        )
                    &&& *final(self) == (EmskinState {
                        workspaces: final(self).workspaces,
                        ..*old(self)
                    })
                } else {
                    &&& *final(self) == *old(self)
                    &&& r == match app_with_surface(old(self).apps@, surface) {
                        Some(i) => Some(
                            Request::Send(
                                OutgoingMessage::TitleChanged {
                                    window_id: old(self).apps@[i].window_id,
                                    title: text,
                                },
                            ),
                        ),
                        None => None,
                    }
                },
            },
    {
        let text = match title {
            Some(text) => text,
            None => return None,
        };
        if self.is_emacs_surface(surface) {
            self.workspaces.active.name = extract_bar_name(text.as_str());
            self.emacs_title = Some(text);
            assert forall|k: u64| #[trigger] self.workspaces.all().contains_key(k) implies k
                < self.workspaces.next_id by {
                assert(old(self).workspaces.all().contains_key(k));
            }
            return None;
        }
        match self.workspaces.find_inactive(surface) {
            Some(id) => {
                self.workspaces.rename_inactive(id, extract_bar_name(text.as_str()));
                proof {
                    let before = old(self).workspaces.inactive@;
                    let after = self.workspaces.inactive@;
                    assert(after.dom() =~= before.dom());
                    assert(before.contains_key(id) && renamed(
                        before,
                        after,
                        id,
                        surface,
                        bar_name(text@),
                    ));
                }
                None
            },
            None => match self.id_for_surface(surface) {
                Some(window_id) => Some(
                    Request::Send(OutgoingMessage::TitleChanged { window_id, title: text }),
                ),
                None => None,
            },
        }
    }
}

/// Workspace `id`, whose Emacs surface is `surface`, got the name `name`; the
/// others stay as they were.
pub open spec fn renamed<S>(
    before: vstd::map::Map<u64, Workspace<S>>,
    after: vstd::map::Map<u64, Workspace<S>>,
    id: u64,
    surface: SurfaceId,
    name: Seq<char>,
) -> bool {
    &&& before[id].emacs_surface == Some(surface)
    &&& after.dom() == before.dom()
    &&& after[id].name@ == name
    &&& after[id].space == before[id].space
    &&& after[id].emacs_surface == before[id].emacs_surface
    &&& forall|k: u64| #[trigger] before.contains_key(k) && k != id ==> after[k] == before[k]
}

// ---------------------------------------------------------------------------
// Popups
// ---------------------------------------------------------------------------

/// What holds the keyboard or the pointer when a popup asks for a grab.
#[derive(Debug, Clone, Copy, PartialEq, Eq, Structural)]
pub struct GrabHolder {
    pub grabbed: bool,
    /// The grab has the serial of the request.
    pub by_request: bool,
    /// The grab has the serial of the popup grab before it.
    pub by_parent: bool,
}

impl GrabHolder {
    /// Another client holds the device.
    pub open spec fn blocks(self) -> bool {
        self.grabbed && !(self.by_request || self.by_parent)
    }
}

/// What to do for a popup grab.
#[derive(Debug, Clone, Copy, PartialEq, Eq, Structural)]
pub struct PopupGrab {
    /// Focus the popup and grab the keyboard.
    pub keyboard: bool,
    pub pointer: bool,
    /// Give the grab up.
    pub ungrab: bool,
}

/// Decides a popup grab. The keyboard is asked first; a device that another
/// client holds ends the grab.
pub fn popup_grab(keyboard: Option<GrabHolder>, pointer: Option<GrabHolder>) -> (r: PopupGrab)
    ensures
        r.ungrab == ((keyboard matches Some(k) && k.blocks()) || (pointer matches Some(p)
            && p.blocks())),
        r.keyboard == (keyboard matches Some(k) && !k.blocks()),
        r.pointer == (pointer matches Some(p) && !p.blocks() && !(keyboard matches Some(k)
            && k.blocks())),
{
    let mut grab = PopupGrab { keyboard: false, pointer: false, ungrab: false };
    match keyboard {
        Some(k) => {
            if k.grabbed && !(k.by_request || k.by_parent) {
                grab.ungrab = true;
                return grab;
            }
            grab.keyboard = true;
        },
        None => {},
    }
    match pointer {
        Some(p) => {
            if p.grabbed && !(p.by_request || p.by_parent) {
                grab.ungrab = true;
                return grab;
            }
            grab.pointer = true;
        },
        None => {},
    }
    grab
}

/// Which surfaces get their first configure with a commit.
#[derive(Debug, Clone, Copy, PartialEq, Eq, Structural)]
pub struct FirstConfigures {
    pub toplevel: bool,
    pub popup: bool,
}

/// A surface was committed. `toplevel` and `popup` say whether it is one, and
/// whether that has got its first configure; one that has not gets it now.
pub fn handle_surface_commit(toplevel: Option<bool>, popup: Option<bool>) -> (r: FirstConfigures)
    ensures
        r.toplevel == (toplevel == Some(false)),
        r.popup == (popup == Some(false)),
{
    FirstConfigures {
        toplevel: match toplevel {
            Some(sent) => !sent,
            None => false,
        },
        popup: match popup {
            Some(sent) => !sent,
            None => false,
        },
    }
}

/// `a - b`, clamped to the range of an `i32`.
fn clamped_sub(a: i32, b: i32) -> (r: i32)
    ensures
        r == clamped_sum(a as int, -b),
{
    let diff: i64 = a as i64 - b as i64;
    if diff > i32::MAX as i64 {
        i32::MAX
    } else if diff < i32::MIN as i64 {
        i32::MIN
    } else {
        diff as i32
    }
}

/// The rectangle that a popup must stay in, relative to its parent: the output,
/// seen from the popup's toplevel coordinates and from where the window stands.
pub fn popup_target(output: Rect, popup_at: Point, window_at: Point) -> (r: Rect)
    ensures
        r.x == clamped_sum(clamped_sum(output.x as int, -popup_at.x), -window_at.x),
        r.y == clamped_sum(clamped_sum(output.y as int, -popup_at.y), -window_at.y),
        r.w == output.w,
        r.h == output.h,
{
    Rect {
        x: clamped_sub(clamped_sub(output.x, popup_at.x), window_at.x),
        y: clamped_sub(clamped_sub(output.y, popup_at.y), window_at.y),
        w: output.w,
        h: output.h,
    }
}

// ---------------------------------------------------------------------------
// What new windows promise
// ---------------------------------------------------------------------------

/// `title`, up to `end` and between `from` and `to` without the white space
/// around it, is the part in front of `" - GNU Emacs"`.
pub open spec fn names_its_frame(title: Seq<char>, end: int, from: int, to: int) -> bool {
    &&& 0 <= from <= to <= end <= title.len()
    &&& end < title.len() ==> " - GNU Emacs"@.is_prefix_of(title.skip(end))
    &&& forall|k: int| 0 <= k < end ==> !" - GNU Emacs"@.is_prefix_of(#[trigger] title.skip(k))
    &&& forall|i: int| 0 <= i < from || to <= i < end ==> is_white_space(#[trigger] title[i])
    &&& from < to ==> !is_white_space(title[from]) && !is_white_space(title[to - 1])
}

/// The name of a frame is what its title says in front of the name of the program,
/// without white space around it and without the mark of an application in Emacs.
pub proof fn titles_name_their_frame(title: &str, r: String)
    requires
        call_ensures(extract_bar_name, (title,), r),
    ensures
        exists|end: int, from: int, to: int| #[trigger]
            names_its_frame(title@, end, from, to) && (if "*eaf: "@.is_prefix_of(
                title@.subrange(from, to),
            ) {
                "*eaf: "@ + r@ == title@.subrange(from, to)
            } else {
                r@ == title@.subrange(from, to)
            }),
{
    let cut = before_text(title@, " - GNU Emacs"@);
    lemma_before_text_cut(title@, " - GNU Emacs"@);
    let (from, to) = lemma_trimmed_cut(cut);
    let end = cut.len() as int;
    assert(cut == title@.take(end));
    assert(cut.subrange(from, to) =~= title@.subrange(from, to));
    assert forall|i: int| 0 <= i < from || to <= i < end implies is_white_space(
        #[trigger] title@[i],
    ) by {
        assert(cut[i] == title@[i]);
    }
    if from < to {
        assert(cut[from] == title@[from] && cut[to - 1] == title@[to - 1]);
    }
    assert(names_its_frame(title@, end, from, to));
    let base = title@.subrange(from, to);
    if "*eaf: "@.is_prefix_of(base) {
        assert("*eaf: "@ + base.skip("*eaf: "@.len() as int) =~= base);
    }
}

/// The first toplevel, while one is awaited, is Emacs: it fills the output, stands
/// below everything at the origin of the active workspace and has the keyboard.
/// No further one is taken for it.
pub proof fn the_first_toplevel_is_emacs<S>(
    s: &mut EmskinState<S>,
    surface: SurfaceId,
    emacs_client: bool,
    title: String,
    output: Option<Size>,
    r: Vec<Request>,
)
    requires
        call_ensures(
            EmskinState::<S>::new_toplevel,
            (s, surface, emacs_client, title, output),
            r,
        ),
        old(s).detect_emacs,
        !old(s).initial_size_settled,
    ensures
        final(s).initial_size_settled,
        final(s).workspaces.active.emacs_surface == Some(surface),
        final(s).workspaces.active_id == old(s).workspaces.active_id,
        final(s).apps@ == old(s).apps@,
        final(s).pending_emacs_toplevels@ == old(s).pending_emacs_toplevels@,
        final(s).next_window_id == old(s).next_window_id,
        ({
            let n = r@.len() as int;
            &&& n == if output is Some { 5int } else { 3 }
            &&& output matches Some(size) ==> {
                &&& r@[0] is Configure && r@[0]->Configure_surface == surface
                &&& r@[0]->Configure_size == size && r@[0]->Configure_fullscreen
                &&& !r@[0]->Configure_at_once
                &&& r@[1] == Request::Send(
                    OutgoingMessage::SurfaceSize { width: size.w, height: size.h },
                )
            }
            &&& r@[n - 3] is Place && r@[n - 3]->Place_surface == surface
            &&& r@[n - 3]->Place_workspace == old(s).workspaces.active_id
            &&& r@[n - 3]->Place_at.x == 0 && r@[n - 3]->Place_at.y == 0
            &&& r@[n - 2] == Request::Lower(surface)
            &&& r@[n - 1] == Request::Focus(Some(surface))
        }),
{
}

/// A further toplevel of Emacs fills the output, stands below everything, and
/// waits to be told apart; it takes no keyboard yet.
pub proof fn further_toplevels_of_emacs_wait<S>(
    s: &mut EmskinState<S>,
    surface: SurfaceId,
    title: String,
    output: Option<Size>,
    r: Vec<Request>,
)
    requires
        call_ensures(EmskinState::<S>::new_toplevel, (s, surface, true, title, output), r),
        !old(s).detect_emacs || old(s).initial_size_settled,
    ensures
        final(s).pending_emacs_toplevels@.len() == old(s).pending_emacs_toplevels@.len() + 1,
        final(s).pending_emacs_toplevels@.last() == surface,
        final(s).pending_emacs_toplevels@.drop_last() == old(s).pending_emacs_toplevels@,
        final(s).apps@ == old(s).apps@,
        final(s).workspaces == old(s).workspaces,
        ({
            let n = r@.len() as int;
            &&& n == if output is Some { 3int } else { 2 }
            &&& output matches Some(size) ==> {
                &&& r@[0] is Configure && r@[0]->Configure_surface == surface
                &&& r@[0]->Configure_size == size && r@[0]->Configure_fullscreen
                &&& r@[0]->Configure_at_once
            }
            &&& r@[n - 2] is Place && r@[n - 2]->Place_surface == surface
            &&& r@[n - 2]->Place_workspace == old(s).workspaces.active_id
            &&& r@[n - 2]->Place_at.x == 0 && r@[n - 2]->Place_at.y == 0
            &&& r@[n - 1] == Request::Lower(surface)
        }),
{
}

/// Any other toplevel is an embedded window of the active workspace under a new
/// number. It starts at one pixel, hidden and without a geometry, until Emacs
/// gives it one; Emacs is told of it, and it takes the keyboard unless a key
/// sequence runs.
pub proof fn other_toplevels_are_embedded<S>(
    s: &mut EmskinState<S>,
    surface: SurfaceId,
    title: String,
    output: Option<Size>,
    r: Vec<Request>,
)
    requires
        call_ensures(EmskinState::<S>::new_toplevel, (s, surface, false, title, output), r),
        !old(s).detect_emacs || old(s).initial_size_settled,
        old(s).next_window_id < u64::MAX,
    ensures
        final(s).apps@.len() == old(s).apps@.len() + 1,
        final(s).apps@.drop_last() == old(s).apps@,
        ({
            let a = final(s).apps@.last();
            &&& a.window_id == old(s).next_window_id && a.surface == surface
            &&& a.workspace_id == old(s).workspaces.active_id
            &&& a.geometry is None && a.pending_geometry is None && a.pending_since is None
            &&& !a.visible
        }),
        final(s).next_window_id == old(s).next_window_id + 1,
        final(s).workspaces == old(s).workspaces,
        final(s).pending_emacs_toplevels@ == old(s).pending_emacs_toplevels@,
        ({
            let n = r@.len() as int;
            let id = old(s).next_window_id;
            let free = old(s).input.prefix_saved_focus is None;
            &&& n == if free { 5int } else { 4 }
            &&& r@[0] is Configure && r@[0]->Configure_surface == surface
            &&& r@[0]->Configure_size.w == 1 && r@[0]->Configure_size.h == 1
            &&& !r@[0]->Configure_fullscreen && !r@[0]->Configure_at_once
            &&& r@[1] is Place && r@[1]->Place_surface == surface
            &&& r@[1]->Place_workspace == old(s).workspaces.active_id
            &&& r@[2] == Request::Send(OutgoingMessage::WindowCreated { window_id: id, title })
            &&& free ==> r@[3] == Request::Focus(Some(surface))
            &&& (r@[n - 1] matches Request::Send(OutgoingMessage::FocusView(v)) && v.window_id
                == id && v.view_id == 0)
        }),
{
    assert(final(s).apps@.drop_last() =~= old(s).apps@);
}

/// A surface is known by the number of the first window that has it.
pub proof fn surfaces_are_known_by_their_window<S>(
    s: EmskinState<S>,
    surface: SurfaceId,
    at: int,
    r: Option<u64>,
)
    requires
        call_ensures(EmskinState::<S>::id_for_surface, (&s, surface), r),
        0 <= at <= s.apps@.len(),
        at < s.apps@.len() ==> s.apps@[at].surface == surface,
        forall|i: int| 0 <= i < at ==> (#[trigger] s.apps@[i]).surface != surface,
    ensures
        at < s.apps@.len() ==> r == Some(s.apps@[at].window_id),
        at == s.apps@.len() ==> r is None,
{
    lemma_app_with_surface_first(s.apps@, surface, at);
}

proof fn lemma_app_with_surface_first(apps: Seq<AppWindow>, s: SurfaceId, at: int)
    requires
        0 <= at <= apps.len(),
        at < apps.len() ==> apps[at].surface == s,
        forall|i: int| 0 <= i < at ==> (#[trigger] apps[i]).surface != s,
    ensures
        app_with_surface(apps, s) == if at < apps.len() {
            Some(at)
        } else {
            None
        },
    decreases apps.len(),
{
    if apps.len() > 0 {
        let rest = apps.drop_last();
        assert forall|i: int| 0 <= i < rest.len() implies rest[i] == apps[i] by {}
        if at < apps.len() {
            lemma_app_with_surface_first(rest, s, at);
        } else {
            lemma_app_with_surface_first(rest, s, at - 1);
        }
    }
}

/// Emacs takes the host window with it when it goes fullscreen or is maximised;
/// an embedded program does not, and is only let hide its decorations. Leaving
/// fullscreen is acknowledged to embedded programs alone. A surface that is
/// neither is not answered.
pub proof fn only_emacs_moves_the_host_window<S>(
    full: &mut EmskinState<S>,
    surface: SurfaceId,
    fulled: bool,
    wide: &mut EmskinState<S>,
    widened: bool,
    s: EmskinState<S>,
    left: bool,
    window: Option<u64>,
    frame: bool,
)
    requires
        call_ensures(EmskinState::<S>::fullscreen_request, (full, surface), fulled),
        call_ensures(EmskinState::<S>::maximize_request, (wide, surface), widened),
        call_ensures(EmskinState::<S>::unfullscreen_request, (&s, surface), left),
        call_ensures(EmskinState::<S>::id_for_surface, (&s, surface), window),
        call_ensures(EmskinState::<S>::is_any_emacs_surface, (&s, surface), frame),
        s == *old(full),
        s == *old(wide),
    ensures
        ({
            let emacs = s.workspaces.active.emacs_surface == Some(surface);
            &&& emacs ==> fulled && widened
            &&& emacs ==> final(full).pending_fullscreen == Some(true)
            &&& emacs ==> final(wide).pending_maximize == Some(true)
            &&& !emacs ==> (fulled <==> window is Some) && !widened
            &&& !emacs ==> final(full).pending_fullscreen == old(full).pending_fullscreen
            &&& !emacs ==> final(wide).pending_maximize == old(wide).pending_maximize
            &&& left <==> !frame && window is Some
        }),
{
}

/// The application identifier of the active Emacs is kept for the host window;
/// that of any other surface, and none, is not.
pub proof fn the_host_window_goes_by_emacs<S>(
    s: &mut EmskinState<S>,
    surface: SurfaceId,
    app_id: Option<String>,
)
    requires
        call_ensures(EmskinState::<S>::app_id_changed, (s, surface, app_id), ()),
    ensures
        old(s).workspaces.active.emacs_surface == Some(surface) && app_id is Some ==> final(
            s).emacs_app_id == app_id,
        old(s).workspaces.active.emacs_surface != Some(surface) || app_id is None ==> final(
            s).emacs_app_id == old(s).emacs_app_id,
{
}

/// The title of the active frame names its workspace and the host window; that of
/// another frame names its workspace alone; Emacs is told that of an embedded
/// window, by its number, and nobody that of anything else.
pub proof fn titles_go_where_they_belong<S>(
    s: &mut EmskinState<S>,
    surface: SurfaceId,
    text: String,
    r: Option<Request>,
    before: EmskinState<S>,
    window: Option<u64>,
    title: &str,
    name: String,
)
    requires
        call_ensures(EmskinState::<S>::title_changed, (s, surface, Some(text)), r),
        before == *old(s),
        call_ensures(EmskinState::<S>::id_for_surface, (&before, surface), window),
        call_ensures(extract_bar_name, (title,), name),
        title@ == text@,
        before.workspaces.wf(),
    ensures
        ({
            let inactive = before.workspaces.inactive@;
            let active = before.workspaces.active.emacs_surface == Some(surface);
            let aside = exists|id: u64| #[trigger]
                inactive.contains_key(id) && inactive[id].emacs_surface == Some(surface);
            &&& active ==> {
                &&& r is None
                &&& final(s).workspaces.active.name@ == name@
                &&& final(s).emacs_title == Some(text)
                &&& final(s).workspaces.inactive@ == inactive
            }
            &&& !active ==> final(s).emacs_title == before.emacs_title
                && final(s).workspaces.active == before.workspaces.active
            &&& !active && aside ==> {
                &&& r is None
                &&& exists|id: u64| #[trigger]
                    inactive.contains_key(id) && inactive[id].emacs_surface == Some(surface)
                        && final(s).workspaces.inactive@[id].name@ == name@
                        && final(s).workspaces.inactive@[id].space == inactive[id].space
                        && final(s).workspaces.inactive@[id].emacs_surface == Some(surface)
                &&& final(s).workspaces.inactive@.dom() == inactive.dom()
            }
            &&& !active && !aside ==> {
                &&& window is None ==> r is None
                &&& window matches Some(id) ==> r == Some(
                    Request::Send(OutgoingMessage::TitleChanged { window_id: id, title: text }),
                )
                &&& final(s).workspaces.inactive@ == inactive
            }
            &&& final(s).workspaces.active_id == before.workspaces.active_id
        }),
        final(s).apps@ == old(s).apps@,
{
}

/// A popup gets the keyboard and the pointer, unless another client holds one:
/// then its grab is given up. The keyboard is asked first, and the pointer not at
/// all where that failed.
pub proof fn popups_yield_to_other_grabs(
    keyboard: Option<GrabHolder>,
    pointer: Option<GrabHolder>,
    r: PopupGrab,
)
    requires
        call_ensures(popup_grab, (keyboard, pointer), r),
    ensures
        ({
            let held = keyboard is Some && keyboard->0.grabbed && !keyboard->0.by_request
                && !keyboard->0.by_parent;
            let held_pointer = pointer is Some && pointer->0.grabbed && !pointer->0.by_request
                && !pointer->0.by_parent;
            &&& r.ungrab <==> held || held_pointer
            &&& r.keyboard <==> keyboard is Some && !held
            &&& r.pointer <==> pointer is Some && !held_pointer && !held
        }),
{
}

/// A surface gets its first configure with its first commit, and no other with a
/// later one.
pub proof fn first_commits_are_answered(
    toplevel: Option<bool>,
    popup: Option<bool>,
    r: FirstConfigures,
)
    requires
        call_ensures(handle_surface_commit, (toplevel, popup), r),
    ensures
        toplevel is None ==> !r.toplevel,
        toplevel matches Some(sent) ==> r.toplevel == !sent,
        popup is None ==> !r.popup,
        popup matches Some(sent) ==> r.popup == !sent,
{
}

/// The area for a popup is the output, seen from where the popup and its window
/// stand: moving it back by both gives the output.
pub proof fn popups_stay_on_the_output(output: Rect, popup_at: Point, window_at: Point, r: Rect)
    requires
        call_ensures(popup_target, (output, popup_at, window_at), r),
        i32::MIN <= output.x - popup_at.x <= i32::MAX,
        i32::MIN <= output.y - popup_at.y <= i32::MAX,
        i32::MIN <= output.x - popup_at.x - window_at.x <= i32::MAX,
        i32::MIN <= output.y - popup_at.y - window_at.y <= i32::MAX,
    ensures
        r.x + popup_at.x + window_at.x == output.x,
        r.y + popup_at.y + window_at.y == output.y,
        r.w == output.w,
        r.h == output.h,
{
}

} // verus!
