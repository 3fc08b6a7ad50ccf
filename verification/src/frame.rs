//! The host window: what is forwarded to it, and what a frame leads to.

use crate::geometry::{Rect, Size};
use crate::ime::ImeBridge;
use crate::input::SurfaceId;
use crate::layout::{ascending_keys, relayouts};
use crate::recording::FinishEvent;
use crate::state::{CursorStatus, EmskinState, OutgoingMessage, Request};
use vstd::prelude::*;

verus! {

/// What is to be forwarded to the host window.
#[derive(Debug)]
pub struct PendingWindow {
    pub title: Option<String>,
    pub fullscreen: Option<bool>,
    pub maximize: Option<bool>,
    /// Whether the host's input method is wanted.
    pub ime: Option<bool>,
    pub cursor: Option<CursorStatus>,
}

/// Whether the host's cursor is shown. One that is a client's surface is drawn
/// by the compositor, so the host's is hidden.
pub fn host_cursor_visible(status: CursorStatus) -> (r: bool)
    ensures
        r == (status == CursorStatus::Default || status == CursorStatus::Named),
{
    match status {
        CursorStatus::Default => true,
        CursorStatus::Named => true,
        _ => false,
    }
}

impl<S> EmskinState<S> {
    /// The window starts fullscreen.
    pub fn request_fullscreen(&mut self, fullscreen: bool)
        ensures
            *final(self) == (EmskinState { pending_fullscreen: Some(fullscreen), ..*old(self) }),
    {
        self.pending_fullscreen = Some(fullscreen);
    }

    /// Hands out what is to be forwarded to the host window, once.
    pub fn take_pending_state(&mut self) -> (r: PendingWindow)
        ensures
            r.title == old(self).emacs_title,
            r.fullscreen == old(self).pending_fullscreen,
            r.maximize == old(self).pending_maximize,
            r.ime == old(self).ime.ime_enabled,
            r.cursor == if old(self).cursor_changed {
                Some(old(self).cursor_status)
            } else {
                None
            },
            *final(self) == (EmskinState {
                emacs_title: None,
                pending_fullscreen: None,
                pending_maximize: None,
                ime: ImeBridge {
                    ime_enabled: None,
                    last_committed: if r.ime is Some {
                        r.ime
                    } else {
                        old(self).ime.last_committed
                    },
                    ..old(self).ime
                },
                cursor_changed: false,
                ..*old(self)
            }),
    {
        let title = self.emacs_title.take();
        let fullscreen = self.pending_fullscreen.take();
        let maximize = self.pending_maximize.take();
        let ime = self.ime.take_ime_enabled();
        let cursor = if self.cursor_changed {
            self.cursor_changed = false;
            Some(self.cursor_status)
        } else {
            None
        };
        PendingWindow { title, fullscreen, maximize, ime, cursor }
    }

    /// The host redraws the window. Gives whether a frame is to be rendered;
    /// whatever asks for another one during the frame is heard.
    pub fn begin_redraw(&mut self) -> (r: bool)
        ensures
            r == old(self).needs_redraw,
            *final(self) == (EmskinState { needs_redraw: false, ..*old(self) }),
    {
        let wanted = self.needs_redraw;
        self.needs_redraw = false;
        wanted
    }

    /// A frame was rendered. Another one follows where an overlay asks for it
    /// or a recording runs.
    pub fn end_frame(&mut self, want_redraw: bool, continuous: bool)
        ensures
            *final(self) == (EmskinState {
                needs_redraw: old(self).needs_redraw || want_redraw || continuous,
                ..*old(self)
            }),
    {
        if want_redraw || continuous {
            self.needs_redraw = true;
        }
    }

    /// The host window has another size; `area` is what layer surfaces leave
    /// of it. Emacs follows once it has got its first size.
    pub fn resized(&mut self, area: Option<Rect>) -> (r: Vec<Request>)
        requires
            old(self).workspaces.wf(),
        ensures
            if old(self).initial_size_settled {
                match area {
                    Some(a) => {
                        &&& exists|ids: Seq<u64>|
                            ascending_keys(old(self).workspaces.all(), ids) && r@
                                == #[trigger] relayouts(
                                old(self).workspaces.all(),
                                ids,
                                a,
                            ).push(
                                Request::Send(
                                    OutgoingMessage::SurfaceSize { width: a.w, height: a.h },
                                ),
                            )
                        &&& *final(self) == (EmskinState { needs_redraw: true, ..*old(self) })
                    },
                    None => r@ == Seq::<Request>::empty() && *final(self) == *old(self),
                }
            } else {
                &&& r@ == Seq::<Request>::empty()
                &&& *final(self) == (EmskinState { needs_redraw: true, ..*old(self) })
            },
    {
        if self.initial_size_settled {
            self.relayout_emacs(area)
        } else {
            self.needs_redraw = true;
            Vec::new()
        }
    }
}

/// The canvas of the overlays: what layer surfaces leave of the output, or the
/// whole output where that is not known.
pub fn canvas(area: Option<Rect>, output: Size) -> (r: Rect)
    ensures
        r == match area {
            Some(a) => a,
            None => Rect { x: 0, y: 0, w: output.w, h: output.h },
        },
{
    match area {
        Some(a) => a,
        None => Rect { x: 0, y: 0, w: output.w, h: output.h },
    }
}

/// What the frames have seen, to notice changes.
#[derive(Debug, Clone, Copy, PartialEq, Eq, Structural)]
pub struct Latches {
    pub last_emacs_connected: bool,
    pub last_recording_active: bool,
}

impl Latches {
    pub fn new() -> (r: Latches)
        ensures
            r == (Latches { last_emacs_connected: false, last_recording_active: false }),
    {
        Latches { last_emacs_connected: false, last_recording_active: false }
    }

    /// Whether Emacs is connected in this frame. Gives whether it just
    /// connected: then the splash screen is dismissed.
    pub fn emacs_connected(&mut self, connected: bool) -> (r: bool)
        ensures
            r == (connected && !old(self).last_emacs_connected),
            *final(self) == (Latches { last_emacs_connected: connected, ..*old(self) }),
    {
        let just = connected && !self.last_emacs_connected;
        self.last_emacs_connected = connected;
        just
    }

    /// Whether a recording runs in this frame. Where that changed, gives
    /// whether key strokes are to be shown from now on; otherwise the user's
    /// own choice stands.
    pub fn recording_active(&mut self, active: bool) -> (r: Option<bool>)
        ensures
            r == if active != old(self).last_recording_active {
                Some(active)
            } else {
                None
            },
            *final(self) == (Latches { last_recording_active: active, ..*old(self) }),
    {
        if active != self.last_recording_active {
            self.last_recording_active = active;
            Some(active)
        } else {
            None
        }
    }
}

/// What Emacs is told of a recording that ended, whoever ended it.
pub fn recording_stopped(event: FinishEvent) -> (r: OutgoingMessage)
    ensures
        r matches OutgoingMessage::RecordingStopped { path, frames_written, duration, reason }
            && path == event.path && frames_written == event.frames_written && duration
            == event.duration && reason@ == event.reason.text(),
{
    OutgoingMessage::RecordingStopped {
        path: event.path,
        frames_written: event.frames_written,
        duration: event.duration,
        reason: event.reason.as_str().to_owned(),
    }
}

/// Layer surfaces of one kind, given from the bottom, as they are painted.
pub open spec fn from_the_top(surfaces: Seq<SurfaceId>) -> Seq<SurfaceId> {
    surfaces.reverse()
}

fn push_reversed(list: &mut Vec<SurfaceId>, surfaces: &[SurfaceId])
    ensures
        final(list)@ == old(list)@ + surfaces@.reverse(),
{
    let ghost before = list@;
    let mut i: usize = surfaces.len();
    assert(list@ =~= before + surfaces@.skip(i as int).reverse());
    while i > 0
        invariant
            i <= surfaces@.len(),
            list@ == before + surfaces@.skip(i as int).reverse(),
        decreases i,
    {
        i -= 1;
        list.push(surfaces[i]);
        assert(list@ =~= before + surfaces@.skip(i as int).reverse());
    }
    assert(surfaces@.skip(0) =~= surfaces@);
}

/// The order in which layer surfaces are painted, from the top: overlays, then
/// the top, bottom and background layer, in each the newest first.
pub fn layer_order(
    overlay: &[SurfaceId],
    top: &[SurfaceId],
    bottom: &[SurfaceId],
    background: &[SurfaceId],
) -> (r: Vec<SurfaceId>)
    ensures
        r@ == from_the_top(overlay@) + from_the_top(top@) + from_the_top(bottom@) + from_the_top(
            background@,
        ),
{
    let mut order: Vec<SurfaceId> = Vec::new();
    push_reversed(&mut order, overlay);
    push_reversed(&mut order, top);
    push_reversed(&mut order, bottom);
    push_reversed(&mut order, background);
    assert(order@ =~= from_the_top(overlay@) + from_the_top(top@) + from_the_top(bottom@)
        + from_the_top(background@));
    order
}

/// In how many of these frames the splash screen is dismissed, given whether
/// Emacs is connected in each.
pub open spec fn dismissals(frames: Seq<bool>) -> nat
    decreases frames.len(),
{
    if frames.len() == 0 {
        0
    } else {
        let before = frames.len() > 1 && frames[frames.len() - 2];
        dismissals(frames.drop_last()) + if frames.last() && !before {
            1nat
        } else {
            0
        }
    }
}

/// Where Emacs stays connected once it is, the splash screen is dismissed once,
/// in the first frame that sees it.
pub proof fn splash_is_dismissed_once(frames: Seq<bool>)
    requires
        forall|i: int, j: int| 0 <= i <= j < frames.len() && frames[i] ==> frames[j],
    ensures
        dismissals(frames) == if frames.contains(true) {
            1nat
        } else {
            0
        },
    decreases frames.len(),
{
    if frames.len() > 0 {
        let rest = frames.drop_last();
        assert forall|i: int, j: int| 0 <= i <= j < rest.len() && rest[i] implies rest[j] by {
            assert(frames[i] && frames[j]);
        }
        splash_is_dismissed_once(rest);
        if rest.contains(true) {
            let k = choose|k: int| 0 <= k < rest.len() && rest[k] == true;
            assert(frames[k]);
            assert(frames[frames.len() - 2] && frames[frames.len() - 1]);
        } else {
            if frames.len() > 1 {
                assert(rest[frames.len() - 2] == frames[frames.len() - 2]);
            }
            if frames.contains(true) {
                let k = choose|k: int| 0 <= k < frames.len() && frames[k] == true;
                if k < rest.len() {
                    assert(rest[k] == true);
                }
            } else {
                assert(frames[frames.len() - 1] == frames.last());
            }
        }
    }
}

/// The host's cursor shows exactly where no client draws the pointer and it is
/// not hidden.
pub proof fn drawn_pointers_hide_the_host_cursor(status: CursorStatus, r: bool)
    requires
        call_ensures(host_cursor_visible, (status,), r),
    ensures
        !r <==> status is Hidden || status is Surface,
{
}

/// What waits for the host window is handed out once: asking again gives nothing.
/// The pointer is told where it changed, as it is now.
pub proof fn pending_changes_are_handed_out_once<S>(
    s: &mut EmskinState<S>,
    r: PendingWindow,
    again: &mut EmskinState<S>,
    nothing: PendingWindow,
)
    requires
        call_ensures(EmskinState::<S>::take_pending_state, (s,), r),
        call_ensures(EmskinState::<S>::take_pending_state, (again,), nothing),
        *old(again) == *final(s),
    ensures
        r.title == old(s).emacs_title,
        r.fullscreen == old(s).pending_fullscreen,
        r.maximize == old(s).pending_maximize,
        r.ime == old(s).ime.ime_enabled,
        old(s).cursor_changed ==> r.cursor == Some(old(s).cursor_status),
        !old(s).cursor_changed ==> r.cursor is None,
        r.ime is Some ==> final(s).ime.last_committed == r.ime,
        r.ime is None ==> final(s).ime.last_committed == old(s).ime.last_committed,
        nothing.title is None,
        nothing.fullscreen is None,
        nothing.maximize is None,
        nothing.ime is None,
        nothing.cursor is None,
        final(s).cursor_status == old(s).cursor_status,
        final(s).apps@ == old(s).apps@,
        final(s).needs_redraw == old(s).needs_redraw,
{
}

/// A frame is rendered exactly where one was asked for, which is then forgotten;
/// after it, another one is asked for where something did so meanwhile, an overlay
/// wants one or a recording runs.
pub proof fn frames_follow_requests<S>(
    s: &mut EmskinState<S>,
    render: bool,
    after: &mut EmskinState<S>,
    want: bool,
    continuous: bool,
    host: &mut EmskinState<S>,
    fullscreen: bool,
)
    requires
        call_ensures(EmskinState::<S>::begin_redraw, (s,), render),
        call_ensures(EmskinState::<S>::end_frame, (after, want, continuous), ()),
        call_ensures(EmskinState::<S>::request_fullscreen, (host, fullscreen), ()),
    ensures
        render <==> old(s).needs_redraw,
        !final(s).needs_redraw,
        final(after).needs_redraw <==> old(after).needs_redraw || want || continuous,
        final(host).pending_fullscreen == Some(fullscreen),
{
}

/// A new size of the host window moves Emacs as any change of the area does, once
/// Emacs has got its first size; before that the frame is only drawn anew.
pub proof fn emacs_follows_the_host_window<S>(
    s: &mut EmskinState<S>,
    area: Option<Rect>,
    r: Vec<Request>,
)
    requires
        call_ensures(EmskinState::<S>::resized, (s, area), r),
        old(s).workspaces.wf(),
    ensures
        !old(s).initial_size_settled ==> r@.len() == 0 && final(s).needs_redraw,
        old(s).initial_size_settled && area is None ==> r@.len() == 0,
        old(s).initial_size_settled ==> (area matches Some(a) ==> {
            &&& final(s).needs_redraw
            &&& r@[r@.len() - 1] == Request::Send(
                OutgoingMessage::SurfaceSize { width: a.w, height: a.h },
            )
            &&& old(s).workspaces.active.emacs_surface matches Some(surface) ==> r@.contains(
                Request::Relayout { surface, workspace: old(s).workspaces.active_id, area: a },
            )
        }),
        final(s).workspaces == old(s).workspaces,
        final(s).apps@ == old(s).apps@,
{
    if old(s).initial_size_settled {
        if let Some(a) = area {
            let all = old(s).workspaces.all();
            let ids = choose|ids: Seq<u64>|
                ascending_keys(all, ids) && r@ == #[trigger] relayouts(all, ids, a).push(
                    Request::Send(OutgoingMessage::SurfaceSize { width: a.w, height: a.h }),
                );
            crate::layout::lemma_relayouts(all, ids, a);
            assert(all.contains_key(old(s).workspaces.active_id));
            assert(ids.contains(old(s).workspaces.active_id));
            if let Some(surface) = old(s).workspaces.active.emacs_surface {
                let moved = Request::Relayout {
                    surface,
                    workspace: old(s).workspaces.active_id,
                    area: a,
                };
                let moves = relayouts(all, ids, a);
                assert(r@[moves.index_of(moved)] == moved);
            }
        }
    }
}

/// Overlays are painted on what layer surfaces leave of the output, or on all of
/// it where that is not known.
pub proof fn overlays_keep_to_the_free_area(area: Option<Rect>, output: Size, r: Rect)
    requires
        call_ensures(canvas, (area, output), r),
    ensures
        area matches Some(a) ==> r == a,
        area is None ==> r.x == 0 && r.y == 0 && r.w == output.w && r.h == output.h,
{
}

/// A change is noticed in the frame in which it happens and in no later one:
/// Emacs when it connects, a recording when it starts and when it ends.
pub proof fn changes_are_noticed_once(
    l: &mut Latches,
    connected: bool,
    just: bool,
    next: &mut Latches,
    again: bool,
    rec: &mut Latches,
    active: bool,
    shown: Option<bool>,
    later: &mut Latches,
    same: Option<bool>,
)
    requires
        call_ensures(Latches::emacs_connected, (l, connected), just),
        call_ensures(Latches::emacs_connected, (next, connected), again),
        *old(next) == *final(l),
        call_ensures(Latches::recording_active, (rec, active), shown),
        call_ensures(Latches::recording_active, (later, active), same),
        *old(later) == *final(rec),
    ensures
        just <==> connected && !old(l).last_emacs_connected,
        !again,
        shown is Some <==> active != old(rec).last_recording_active,
        shown is Some ==> shown == Some(active),
        same is None,
        final(l).last_recording_active == old(l).last_recording_active,
        final(rec).last_emacs_connected == old(rec).last_emacs_connected,
{
}

/// Emacs is told the file, the number of frames, the duration and the reason of a
/// recording that ended.
pub proof fn ended_recordings_are_reported(
    event: FinishEvent,
    r: OutgoingMessage,
    reason: &'static str,
)
    requires
        call_ensures(recording_stopped, (event,), r),
        call_ensures(crate::recording::FinishReason::as_str, (event.reason,), reason),
    ensures
        r is RecordingStopped,
        r->RecordingStopped_path == event.path,
        r->frames_written == event.frames_written,
        r->duration == event.duration,
        r->reason@ == reason@,
{
}

/// Layer surfaces are painted from the top: every overlay before every surface of
/// the top layer, those before the bottom layer and those before the background,
/// and in each layer the newest first.
pub proof fn layers_are_painted_from_the_top(
    overlay: &[SurfaceId],
    top: &[SurfaceId],
    bottom: &[SurfaceId],
    background: &[SurfaceId],
    r: Vec<SurfaceId>,
)
    requires
        call_ensures(layer_order, (overlay, top, bottom, background), r),
    ensures
        ({
            let a = overlay@.len() as int;
            let b = a + top@.len();
            let c = b + bottom@.len();
            let d = c + background@.len();
            &&& r@.len() == d
            &&& forall|i: int| 0 <= i < a ==> r@[i] == overlay@[a - 1 - i]
            &&& forall|i: int| a <= i < b ==> r@[i] == top@[b - 1 - i]
            &&& forall|i: int| b <= i < c ==> r@[i] == bottom@[c - 1 - i]
            &&& forall|i: int| c <= i < d ==> r@[i] == background@[d - 1 - i]
        }),
{
}

} // verus!
