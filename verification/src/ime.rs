//! Input-method bridge between the host compositor and embedded clients.
//!
//! Whether the host input method is allowed follows from the focused client:
//! it is while that client has bound a text input. The answer can change
//! without any event, so it is derived again on every tick, and handed to the
//! window only when it differs from what the window was told last.

use crate::geometry::{Point, Rect};
use crate::input::SurfaceId;
use vstd::prelude::*;

verus! {

/// A request to the text input of the seat.
#[derive(Debug, Clone, PartialEq, Eq)]
pub enum TextInputCall {
    /// Make this surface the text-input focus.
    SetFocus(Option<SurfaceId>),
    Enter,
    Leave,
    /// Show pre-edit text, with the cursor range in bytes; no text clears it.
    Preedit { text: Option<String>, begin: i32, end: i32 },
    Commit(String),
    Done,
}

/// An event of the host input method.
#[derive(Debug, Clone, PartialEq, Eq)]
pub enum HostIme {
    Enabled,
    Preedit { text: String, cursor: Option<(usize, usize)> },
    Commit(String),
    Disabled,
}

#[derive(Debug, Clone, Copy, PartialEq, Eq, Structural)]
pub struct ImeBridge {
    pub focused_surface: Option<SurfaceId>,
    /// Whether to allow the host input method, not handed out yet.
    pub ime_enabled: Option<bool>,
    /// What was handed out last.
    pub last_committed: Option<bool>,
}

/// The requests that move text-input focus. The leave must go out while the
/// focus still points at the surface that is left.
pub open spec fn focus_calls(from: Option<SurfaceId>, to: Option<SurfaceId>) -> Seq<TextInputCall> {
    if from == to {
        seq![]
    } else {
        (if from is Some {
            seq![TextInputCall::SetFocus(from), TextInputCall::Leave]
        } else {
            seq![]
        }) + seq![TextInputCall::SetFocus(to)] + (if to is Some {
            seq![TextInputCall::Enter]
        } else {
            seq![]
        })
    }
}

/// The requests that move text-input focus.
pub fn transition_focus(from: Option<SurfaceId>, to: Option<SurfaceId>) -> (r: Vec<TextInputCall>)
    ensures
        r@ == focus_calls(from, to),
{
    let mut calls: Vec<TextInputCall> = Vec::new();
    let same = match from {
        Some(a) => match to {
            Some(b) => a == b,
            None => false,
        },
        None => to.is_none(),
    };
    if same {
        assert(calls@ =~= focus_calls(from, to));
        return calls;
    }
    if from.is_some() {
        calls.push(TextInputCall::SetFocus(from));
        calls.push(TextInputCall::Leave);
    }
    calls.push(TextInputCall::SetFocus(to));
    if to.is_some() {
        calls.push(TextInputCall::Enter);
    }
    assert(calls@ =~= focus_calls(from, to));
    calls
}

impl ImeBridge {
    /// The bridge after the answer was derived again.
    pub open spec fn resynced(self, want: bool) -> ImeBridge {
        if self.last_committed != Some(want) {
            ImeBridge { ime_enabled: Some(want), ..self }
        } else {
            self
        }
    }

    pub fn new() -> (r: ImeBridge)
        ensures
            r == (ImeBridge { focused_surface: None, ime_enabled: None, last_committed: None }),
    {
        ImeBridge { focused_surface: None, ime_enabled: None, last_committed: None }
    }

    /// Keyboard focus moved to `new_focus`. The caller makes the requests that
    /// are returned, and then calls [`Self::resync`].
    pub fn on_focus_changed(&mut self, new_focus: Option<SurfaceId>) -> (r: Vec<TextInputCall>)
        ensures
            r@ == focus_calls(old(self).focused_surface, new_focus),
            *final(self) == (ImeBridge { focused_surface: new_focus, ..*old(self) }),
    {
        let calls = transition_focus(self.focused_surface, new_focus);
        self.focused_surface = new_focus;
        calls
    }

    /// Derives whether the host input method is allowed. `want` says whether
    /// the focused client has bound a text input.
    pub fn resync(&mut self, want: bool)
        ensures
            *final(self) == old(self).resynced(want),
    {
        let told = match self.last_committed {
            Some(b) => b == want,
            None => false,
        };
        if !told {
            self.ime_enabled = Some(want);
        }
    }

    /// Hands out the decision to apply, if there is one.
    pub fn take_ime_enabled(&mut self) -> (r: Option<bool>)
        ensures
            r == old(self).ime_enabled,
            *final(self) == (ImeBridge {
                ime_enabled: None,
                last_committed: if r is Some {
                    r
                } else {
                    old(self).last_committed
                },
                ..*old(self)
            }),
    {
        let taken = self.ime_enabled;
        self.ime_enabled = None;
        if taken.is_some() {
            self.last_committed = taken;
        }
        taken
    }

    /// Forgets the focused surface and turns the host input method off while
    /// the workspace is switched.
    pub fn reset_on_workspace_switch(&mut self)
        ensures
            *final(self) == (ImeBridge { focused_surface: None, ..old(self).resynced(false) }),
    {
        self.focused_surface = None;
        self.resync(false);
    }
}

/// What a host input-method event asks of the focused client. Where the host
/// names no cursor, the range is `-1, -1`.
pub fn on_host_ime_event(event: HostIme) -> (r: Vec<TextInputCall>)
    ensures
        match event {
            HostIme::Enabled => r@ == seq![TextInputCall::Enter],
            HostIme::Preedit { text, cursor } => r@ == seq![
                TextInputCall::Preedit {
                    text: Some(text),
                    begin: match cursor {
                        Some((b, _)) => b as i32,
                        None => -1i32,
                    },
                    end: match cursor {
                        Some((_, e)) => e as i32,
                        None => -1i32,
                    },
                },
                TextInputCall::Done,
            ],
            HostIme::Commit(text) => r@ == seq![
                TextInputCall::Preedit { text: None, begin: 0, end: 0 },
                TextInputCall::Commit(text),
                TextInputCall::Done,
            ],
            HostIme::Disabled => r@ == seq![
                TextInputCall::Preedit { text: None, begin: 0, end: 0 },
                TextInputCall::Done,
                TextInputCall::Leave,
            ],
        },
{
    let mut calls: Vec<TextInputCall> = Vec::new();
    match event {
        HostIme::Enabled => {
            calls.push(TextInputCall::Enter);
        },
        HostIme::Preedit { text, cursor } => {
            let (begin, end) = match cursor {
                Some((b, e)) => (b as i32, e as i32),
                None => (-1, -1),
            };
            calls.push(TextInputCall::Preedit { text: Some(text), begin, end });
            calls.push(TextInputCall::Done);
        },
        HostIme::Commit(text) => {
            calls.push(TextInputCall::Preedit { text: None, begin: 0, end: 0 });
            calls.push(TextInputCall::Commit(text));
            calls.push(TextInputCall::Done);
        },
        HostIme::Disabled => {
            calls.push(TextInputCall::Preedit { text: None, begin: 0, end: 0 });
            calls.push(TextInputCall::Done);
            calls.push(TextInputCall::Leave);
        },
    }
    calls
}

/// Where the host's candidate popup goes: the client's caret, moved by where
/// its surface stands on the canvas.
pub fn ime_cursor_area(caret: Rect, surface_at: Option<Point>) -> (r: Rect)
    requires
        surface_at matches Some(p) ==> i32::MIN <= caret.x + p.x <= i32::MAX && i32::MIN <= caret.y
            + p.y <= i32::MAX,
    ensures
        r == match surface_at {
            Some(p) => Rect { x: (caret.x + p.x) as i32, y: (caret.y + p.y) as i32, ..caret },
            None => caret,
        },
{
    match surface_at {
        Some(p) => Rect { x: caret.x + p.x, y: caret.y + p.y, w: caret.w, h: caret.h },
        None => caret,
    }
}

/// Deriving the same answer again changes nothing, drained or not.
pub proof fn resync_is_idempotent(b: ImeBridge, want: bool)
    ensures
        b.resynced(want).resynced(want) == b.resynced(want),
{
}

/// Once an answer was handed out, deriving it again queues nothing: the window
/// is told only of changes.
pub proof fn told_answers_are_not_repeated(b: ImeBridge, want: bool)
    requires
        b.ime_enabled is None,
        b.last_committed == Some(want),
    ensures
        b.resynced(want).ime_enabled is None,
{
}

/// Text input leaves the surface that had it, while it still has it, and only
/// then enters the new one; where the focus does not move, nothing is sent. The
/// bridge knows the new surface afterwards.
pub proof fn text_input_follows_the_focus(
    b: &mut ImeBridge,
    to: Option<SurfaceId>,
    r: Vec<TextInputCall>,
)
    requires
        call_ensures(ImeBridge::on_focus_changed, (b, to), r),
    ensures
        final(b).focused_surface == to,
        final(b).ime_enabled == old(b).ime_enabled,
        final(b).last_committed == old(b).last_committed,
        old(b).focused_surface == to ==> r@.len() == 0,
        old(b).focused_surface != to ==> {
            &&& old(b).focused_surface is Some ==> {
                &&& r@[0] == TextInputCall::SetFocus(old(b).focused_surface)
                &&& r@[1] == TextInputCall::Leave
                &&& r@[2] == TextInputCall::SetFocus(to)
            }
            &&& old(b).focused_surface is None ==> r@[0] == TextInputCall::SetFocus(to)
            &&& to is Some ==> r@[r@.len() - 1] == TextInputCall::Enter
            &&& r@.len() == (if old(b).focused_surface is Some { 3int } else { 1 }) + (if to
                is Some { 1int } else { 0 })
        },
{
}

/// The host's window is told whether the input method is allowed exactly when
/// that differs from what it was told last, and at the first time.
pub proof fn the_window_is_told_of_changes(
    b: &mut ImeBridge,
    want: bool,
    next: &mut ImeBridge,
    told: Option<bool>,
)
    requires
        call_ensures(ImeBridge::resync, (b, want), ()),
        call_ensures(ImeBridge::take_ime_enabled, (next,), told),
        *old(next) == *final(b),
        old(b).ime_enabled is None,
    ensures
        told is Some <==> old(b).last_committed != Some(want),
        told is Some ==> told == Some(want),
        final(next).last_committed == Some(want),
        final(next).ime_enabled is None,
        final(next).focused_surface == old(b).focused_surface,
{
}

/// Switching the workspace forgets the surface and turns the input method off
/// where the window was not told so last.
pub proof fn switching_turns_the_input_method_off(b: &mut ImeBridge)
    requires
        call_ensures(ImeBridge::reset_on_workspace_switch, (b,), ()),
    ensures
        final(b).focused_surface is None,
        final(b).last_committed == old(b).last_committed,
        old(b).last_committed != Some(false) ==> final(b).ime_enabled == Some(false),
        old(b).last_committed == Some(false) ==> final(b).ime_enabled == old(b).ime_enabled,
{
}

/// What the host's input method composes is shown, and what it commits is
/// committed once, in place of what was shown. Each change is one step for the
/// client. Turning the input method off takes away what was shown.
pub proof fn composed_text_reaches_the_client(event: HostIme, r: Vec<TextInputCall>)
    requires
        call_ensures(on_host_ime_event, (event,), r),
    ensures
        event is Enabled ==> r@.len() == 1 && r@[0] is Enter,
        event matches HostIme::Preedit { text, cursor } ==> {
            &&& r@.len() == 2 && r@[1] is Done
            &&& r@[0] is Preedit && r@[0]->text == Some(text)
            &&& cursor is None ==> r@[0]->begin == -1 && r@[0]->end == -1
            &&& cursor matches Some((b, e)) ==> b <= i32::MAX && e <= i32::MAX ==> r@[0]->begin
                == b && r@[0]->end == e
        },
        event matches HostIme::Commit(text) ==> {
            &&& r@.len() == 3 && r@[2] is Done
            &&& r@[0] is Preedit && r@[0]->text is None && r@[0]->begin == 0 && r@[0]->end == 0
            &&& r@[1] == TextInputCall::Commit(text)
        },
        event is Disabled ==> {
            &&& r@.len() == 3
            &&& r@[0] is Preedit && r@[0]->text is None
            &&& r@[1] is Done && r@[2] is Leave
        },
{
}

/// The candidate popup stands at the caret, moved by where its surface stands,
/// and is as large as the caret.
pub proof fn popups_stand_at_the_caret(caret: Rect, at: Option<Point>, r: Rect)
    requires
        call_ensures(ime_cursor_area, (caret, at), r),
        at matches Some(p) ==> i32::MIN <= caret.x + p.x <= i32::MAX && i32::MIN <= caret.y + p.y
            <= i32::MAX,
    ensures
        r.w == caret.w,
        r.h == caret.h,
        at matches Some(p) ==> r.x - p.x == caret.x && r.y - p.y == caret.y,
        at is None ==> r.x == caret.x && r.y == caret.y,
{
}

/// The client that loses the text input is told so before the next one has it, and
/// each is told while the focus is on it: what is told last is where the focus
/// goes. Without a change nothing is told.
pub proof fn the_old_client_leaves_first(
    from: Option<SurfaceId>,
    to: Option<SurfaceId>,
    r: Vec<TextInputCall>,
    i: int,
)
    requires
        call_ensures(transition_focus, (from, to), r),
        0 <= i < r@.len(),
    ensures
        from != to,
        r@[i] is Leave ==> i == 1 && from is Some && r@[0] == TextInputCall::SetFocus(from),
        r@[i] is Enter ==> i == r@.len() - 1 && to is Some && r@[i - 1] == TextInputCall::SetFocus(
            to,
        ),
        from is Some ==> r@.contains(TextInputCall::Leave),
        to is Some ==> r@.last() == TextInputCall::Enter,
        to is None ==> r@.last() == TextInputCall::SetFocus(None),
        r@.len() == 1 + (if from is Some {
            2int
        } else {
            0
        }) + (if to is Some {
            1int
        } else {
            0
        }),
{
    if from is Some {
        assert(r@[1] == TextInputCall::Leave);
    }
}

/// Where the focus stays nothing is told, and where it moves something is.
pub proof fn focus_moves_are_told(
    from: Option<SurfaceId>,
    to: Option<SurfaceId>,
    r: Vec<TextInputCall>,
    fresh: ImeBridge,
)
    requires
        call_ensures(transition_focus, (from, to), r),
        call_ensures(ImeBridge::new, (), fresh),
    ensures
        (r@.len() == 0) == (from == to),
        fresh.focused_surface is None && fresh.ime_enabled is None && fresh.last_committed is None,
{
}

} // verus!
