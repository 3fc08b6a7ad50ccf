//! Clipboard and primary selection between the host, Wayland clients and X
//! clients.
//!
//! For each selection it is known where it came from, so that a paste asks the
//! right side.

use vstd::prelude::*;

verus! {

/// Where a selection came from.
#[derive(Debug, Clone, Copy, PartialEq, Eq, Structural)]
pub enum SelectionOrigin {
    /// A Wayland client.
    Wayland,
    /// An X client.
    X11,
    /// The host: only an offer is held, the data is pulled from it.
    Host,
}

impl Default for SelectionOrigin {
    fn default() -> (r: SelectionOrigin)
        ensures
            r == SelectionOrigin::Wayland,
    {
        SelectionOrigin::Wayland
    }
}

#[derive(Debug, Clone, Copy, PartialEq, Eq, Structural)]
pub enum SelectionTarget {
    Clipboard,
    Primary,
}

/// Something to be done with a selection.
#[derive(Debug, Clone, PartialEq, Eq)]
pub enum SelectionCall {
    /// Offer it to Wayland clients.
    SetWayland(SelectionTarget, Vec<String>),
    ClearWayland(SelectionTarget),
    /// Offer it to X clients; none clears it.
    SetX11(SelectionTarget, Option<Vec<String>>),
    SetHost(SelectionTarget, Vec<String>),
    ClearHost(SelectionTarget),
    /// Ask the Wayland client that owns it to write it.
    RequestWayland(SelectionTarget),
    /// Ask the X client that owns it to write it.
    RequestX11(SelectionTarget),
    /// Ask the host to write it.
    RequestHost(SelectionTarget),
    /// Close the pipe: the reader gets nothing.
    Close,
}

/// What the host did with a selection.
#[derive(Debug)]
pub enum ClipboardEvent {
    /// It offers these types now; none where it cleared the selection.
    HostSelectionChanged { target: SelectionTarget, mime_types: Vec<String> },
    /// It wants what a client copied. Where the data comes back through a pipe
    /// of ours, request `id` is answered with what was read from it.
    HostSendRequest { id: u64, target: SelectionTarget, piped: bool },
    /// It no longer shows what a client copied.
    SourceCancelled { target: SelectionTarget },
}

/// What an event of the host leads to, in this order.
#[derive(Debug)]
pub struct ClipboardResponse {
    pub calls: Vec<SelectionCall>,
    /// Clients have to be told at once: the pipe is closed here after that.
    pub flush: bool,
    /// The request whose pipe is to be read; see [`OutgoingPipe`].
    pub read_pipe: Option<u64>,
}

/// These calls offer types of the host to clients, or take them back where there
/// are none.
pub open spec fn offers(
    calls: Seq<SelectionCall>,
    target: SelectionTarget,
    mimes: Seq<String>,
    x11: bool,
) -> bool {
    if mimes.len() == 0 {
        calls == seq![SelectionCall::ClearWayland(target)] + (if x11 {
            seq![SelectionCall::SetX11(target, None)]
        } else {
            seq![]
        })
    } else {
        &&& calls.len() == if x11 {
            2int
        } else {
            1
        }
        &&& calls.last() matches SelectionCall::SetWayland(t, m) && t == target && m@ == mimes
        &&& x11 ==> (calls[0] matches SelectionCall::SetX11(t, Some(m)) && t == target && m@
            == mimes)
    }
}

/// What is known of the two selections.
#[derive(Debug)]
pub struct SelectionState {
    pub clipboard_origin: SelectionOrigin,
    pub primary_origin: SelectionOrigin,
    /// What the host offers, to be repeated when X clients can be served.
    pub host_clipboard_mimes: Vec<String>,
    pub host_primary_mimes: Vec<String>,
}

impl SelectionState {
    /// Where a selection came from.
    pub open spec fn origin(&self, target: SelectionTarget) -> SelectionOrigin {
        match target {
            SelectionTarget::Clipboard => self.clipboard_origin,
            SelectionTarget::Primary => self.primary_origin,
        }
    }

    /// What the host offers of a selection.
    pub open spec fn host_mimes(&self, target: SelectionTarget) -> Seq<String> {
        match target {
            SelectionTarget::Clipboard => self.host_clipboard_mimes@,
            SelectionTarget::Primary => self.host_primary_mimes@,
        }
    }

    /// The other selection is as it was.
    pub open spec fn other_unchanged(&self, before: &SelectionState, target: SelectionTarget) -> bool {
        let other = match target {
            SelectionTarget::Clipboard => SelectionTarget::Primary,
            SelectionTarget::Primary => SelectionTarget::Clipboard,
        };
        self.origin(other) == before.origin(other) && self.host_mimes(other) == before.host_mimes(
            other,
        )
    }

    pub fn new() -> (r: SelectionState)
        ensures
            forall|t: SelectionTarget| #[trigger] r.origin(t) == SelectionOrigin::Wayland,
            forall|t: SelectionTarget| (#[trigger] r.host_mimes(t)).len() == 0,
    {
        SelectionState {
            clipboard_origin: SelectionOrigin::Wayland,
            primary_origin: SelectionOrigin::Wayland,
            host_clipboard_mimes: Vec::new(),
            host_primary_mimes: Vec::new(),
        }
    }

    fn set_origin(&mut self, target: SelectionTarget, origin: SelectionOrigin)
        ensures
            final(self).origin(target) == origin,
            final(self).host_mimes(target) == old(self).host_mimes(target),
            final(self).other_unchanged(old(self), target),
    {
        match target {
            SelectionTarget::Clipboard => {
                self.clipboard_origin = origin;
            },
            SelectionTarget::Primary => {
                self.primary_origin = origin;
            },
        }
    }

    fn set_host_mimes(&mut self, target: SelectionTarget, mimes: Vec<String>)
        ensures
            final(self).host_mimes(target) == mimes@,
            final(self).origin(target) == old(self).origin(target),
            final(self).other_unchanged(old(self), target),
    {
        match target {
            SelectionTarget::Clipboard => {
                self.host_clipboard_mimes = mimes;
            },
            SelectionTarget::Primary => {
                self.host_primary_mimes = mimes;
            },
        }
    }

    fn get_origin(&self, target: SelectionTarget) -> (r: SelectionOrigin)
        ensures
            r == self.origin(target),
    {
        match target {
            SelectionTarget::Clipboard => self.clipboard_origin,
            SelectionTarget::Primary => self.primary_origin,
        }
    }

    /// The host's selection changed: it is offered to both kinds of clients, and
    /// pastes ask the host from then on; where it is empty, it is taken from the
    /// clients. `x11` says whether X clients can be served.
    pub fn host_selection_changed(
        &mut self,
        target: SelectionTarget,
        mimes: Vec<String>,
        x11: bool,
    ) -> (r: Vec<SelectionCall>)
        ensures
            final(self).origin(target) == if mimes@.len() > 0 {
                SelectionOrigin::Host
            } else {
                old(self).origin(target)
            },
            final(self).other_unchanged(old(self), target),
            final(self).host_mimes(target) == mimes@,
            offers(r@, target, mimes@, x11),
    {
        let mut calls: Vec<SelectionCall> = Vec::new();
        if mimes.is_empty() {
            calls.push(SelectionCall::ClearWayland(target));
            if x11 {
                calls.push(SelectionCall::SetX11(target, None));
            }
            assert(calls@ =~= seq![SelectionCall::ClearWayland(target)] + (if x11 {
                seq![SelectionCall::SetX11(target, None)]
            } else {
                seq![]
            }));
        } else {
            if x11 {
                calls.push(SelectionCall::SetX11(target, Some(copy_list(&mimes))));
            }
            calls.push(SelectionCall::SetWayland(target, copy_list(&mimes)));
            self.set_origin(target, SelectionOrigin::Host);
        }
        self.set_host_mimes(target, mimes);
        calls
    }

    /// A Wayland client took a selection: pastes ask it from then on.
    pub fn wayland_new_selection(&mut self, target: SelectionTarget)
        ensures
            final(self).origin(target) == SelectionOrigin::Wayland,
            final(self).host_mimes(target) == old(self).host_mimes(target),
            final(self).other_unchanged(old(self), target),
    {
        self.set_origin(target, SelectionOrigin::Wayland);
    }

    /// These calls offer to X clients what the host offers.
    pub open spec fn replays(&self, calls: Seq<SelectionCall>) -> bool {
        &&& calls.len() == (if self.host_clipboard_mimes@.len() > 0 {
            1int
        } else {
            0
        }) + (if self.host_primary_mimes@.len() > 0 {
            1int
        } else {
            0
        })
        &&& self.host_clipboard_mimes@.len() > 0 ==> (calls[0] matches SelectionCall::SetX11(
            t,
            Some(m),
        ) && t == SelectionTarget::Clipboard && m@ == self.host_clipboard_mimes@)
        &&& self.host_primary_mimes@.len() > 0 ==> (calls.last() matches SelectionCall::SetX11(
            t,
            Some(m),
        ) && t == SelectionTarget::Primary && m@ == self.host_primary_mimes@)
    }

    /// X clients can be served from now on: what the host offers is offered to
    /// them.
    pub fn replay(&self) -> (r: Vec<SelectionCall>)
        ensures
            self.replays(r@),
    {
        let mut calls: Vec<SelectionCall> = Vec::new();
        if !self.host_clipboard_mimes.is_empty() {
            calls.push(
                SelectionCall::SetX11(
                    SelectionTarget::Clipboard,
                    Some(copy_list(&self.host_clipboard_mimes)),
                ),
            );
        }
        if !self.host_primary_mimes.is_empty() {
            calls.push(
                SelectionCall::SetX11(
                    SelectionTarget::Primary,
                    Some(copy_list(&self.host_primary_mimes)),
                ),
            );
        }
        calls
    }

    /// The host no longer has what a client gave it.
    pub fn source_cancelled(&mut self, target: SelectionTarget)
        ensures
            final(self).origin(target) == SelectionOrigin::Wayland,
            final(self).host_mimes(target) == old(self).host_mimes(target),
            final(self).other_unchanged(old(self), target),
    {
        self.set_origin(target, SelectionOrigin::Wayland);
    }

    /// The host wants the selection of a client. `x11` says whether X clients
    /// can be asked. What came from the host is not given back to it.
    pub fn host_send_request(&self, target: SelectionTarget, x11: bool) -> (r: SelectionCall)
        ensures
            r == paste_on_host(self.origin(target), target, x11),
    {
        match self.get_origin(target) {
            SelectionOrigin::Wayland => SelectionCall::RequestWayland(target),
            SelectionOrigin::X11 => if x11 {
                SelectionCall::RequestX11(target)
            } else {
                SelectionCall::Close
            },
            SelectionOrigin::Host => SelectionCall::Close,
        }
    }

    /// An X client took a selection. Wayland clients see it at once; the host
    /// only once Emacs is connected, so that selections made while it starts
    /// do not overwrite the user's. `host` says whether the host can be served.
    pub fn x11_new_selection(
        &mut self,
        target: SelectionTarget,
        mimes: Vec<String>,
        connected: bool,
        host: bool,
    ) -> (r: Vec<SelectionCall>)
        ensures
            final(self).origin(target) == SelectionOrigin::X11,
            final(self).host_mimes(target) == old(self).host_mimes(target),
            final(self).other_unchanged(old(self), target),
            r@.len() == if connected && host {
                2int
            } else {
                1
            },
            r@[0] matches SelectionCall::SetWayland(t, m) && t == target && m@ == mimes@,
            connected && host ==> (r@[1] matches SelectionCall::SetHost(t, m) && t == target && m@
                == mimes@),
    {
        let mut calls: Vec<SelectionCall> = Vec::new();
        self.set_origin(target, SelectionOrigin::X11);
        calls.push(SelectionCall::SetWayland(target, copy_list(&mimes)));
        if connected && host {
            calls.push(SelectionCall::SetHost(target, mimes));
        }
        calls
    }

    /// An X client gave up a selection.
    pub fn x11_cleared_selection(&mut self, target: SelectionTarget, host: bool) -> (r: Vec<
        SelectionCall,
    >)
        ensures
            final(self).origin(target) == SelectionOrigin::Wayland,
            final(self).host_mimes(target).len() == 0,
            final(self).other_unchanged(old(self), target),
            r@ == seq![SelectionCall::ClearWayland(target)] + (if host {
                seq![SelectionCall::ClearHost(target)]
            } else {
                seq![]
            }),
    {
        let mut calls: Vec<SelectionCall> = Vec::new();
        self.set_host_mimes(target, Vec::new());
        self.set_origin(target, SelectionOrigin::Wayland);
        calls.push(SelectionCall::ClearWayland(target));
        if host {
            calls.push(SelectionCall::ClearHost(target));
        }
        assert(calls@ =~= seq![SelectionCall::ClearWayland(target)] + (if host {
            seq![SelectionCall::ClearHost(target)]
        } else {
            seq![]
        }));
        calls
    }

    /// An X client wants to paste. Between X clients the X server serves it by
    /// itself, so the pipe is closed.
    pub fn x11_send_selection(&self, target: SelectionTarget, host: bool) -> (r: SelectionCall)
        ensures
            r == paste_in_x11(self.origin(target), target, host),
    {
        match self.get_origin(target) {
            SelectionOrigin::Wayland => SelectionCall::RequestWayland(target),
            SelectionOrigin::X11 => SelectionCall::Close,
            SelectionOrigin::Host => if host {
                SelectionCall::RequestHost(target)
            } else {
                SelectionCall::Close
            },
        }
    }
}

impl SelectionState {
    /// The host did something with a selection. `x11` says whether X clients can
    /// be served.
    pub fn handle_clipboard_event(&mut self, event: ClipboardEvent, x11: bool) -> (r:
        ClipboardResponse)
        ensures
            match event {
                ClipboardEvent::HostSelectionChanged { target, mime_types } => {
                    &&& offers(r.calls@, target, mime_types@, x11)
                    &&& !r.flush && r.read_pipe is None
                    &&& final(self).host_mimes(target) == mime_types@
                    &&& final(self).origin(target) == if mime_types@.len() > 0 {
                        SelectionOrigin::Host
                    } else {
                        old(self).origin(target)
                    }
                    &&& final(self).other_unchanged(old(self), target)
                },
                ClipboardEvent::HostSendRequest { id, target, piped } => {
                    &&& r.calls@ == seq![paste_on_host(old(self).origin(target), target, x11)]
                    &&& r.flush
                    &&& r.read_pipe == if piped {
                        Some(id)
                    } else {
                        None
                    }
                    &&& *final(self) == *old(self)
                },
                ClipboardEvent::SourceCancelled { target } => {
                    &&& r.calls@ == Seq::<SelectionCall>::empty()
                    &&& !r.flush && r.read_pipe is None
                    &&& final(self).origin(target) == SelectionOrigin::Wayland
                    &&& final(self).host_mimes(target) == old(self).host_mimes(target)
                    &&& final(self).other_unchanged(old(self), target)
                },
            },
    {
        match event {
            ClipboardEvent::HostSelectionChanged { target, mime_types } => {
                let calls = self.host_selection_changed(target, mime_types, x11);
                ClipboardResponse { calls, flush: false, read_pipe: None }
            },
            ClipboardEvent::HostSendRequest { id, target, piped } => {
                let mut calls: Vec<SelectionCall> = Vec::new();
                calls.push(self.host_send_request(target, x11));
                assert(calls@ =~= seq![paste_on_host(self.origin(target), target, x11)]);
                let read_pipe: Option<u64> = if piped {
                    Some(id)
                } else {
                    None
                };
                ClipboardResponse { calls, flush: true, read_pipe }
            },
            ClipboardEvent::SourceCancelled { target } => {
                self.source_cancelled(target);
                ClipboardResponse { calls: Vec::new(), flush: false, read_pipe: None }
            },
        }
    }
}

/// What reading a pipe gave.
#[derive(Debug, Clone, Copy)]
pub enum PipeRead<'a> {
    Data(&'a [u8]),
    /// The writer closed it.
    End,
    /// Nothing there yet.
    NotReady,
    Failed,
}

/// What to do after reading a pipe.
#[derive(Debug, PartialEq, Eq)]
pub enum PipeStep {
    ReadOn,
    /// Wait until there is more.
    Wait,
    /// Answer the request with this data, and close the pipe.
    Complete { id: u64, data: Vec<u8> },
    /// Close the pipe; the request stays unanswered.
    Drop,
}

/// A pipe through which a client hands what it copied to the host.
#[derive(Debug)]
pub struct OutgoingPipe {
    /// The request that is answered with the data.
    pub id: u64,
    /// What was read so far.
    pub data: Vec<u8>,
}

impl OutgoingPipe {
    pub fn new(id: u64) -> (r: OutgoingPipe)
        ensures
            r.id == id,
            r.data@ == Seq::<u8>::empty(),
    {
        OutgoingPipe { id, data: Vec::new() }
    }

    /// The pipe cannot be read at all: the request is answered with nothing.
    pub fn refused(self) -> (r: PipeStep)
        ensures
            r matches PipeStep::Complete { id, data } && id == self.id && data@ == Seq::<
                u8,
            >::empty(),
    {
        PipeStep::Complete { id: self.id, data: Vec::new() }
    }

    /// The pipe was read.
    pub fn read(&mut self, event: PipeRead<'_>) -> (r: PipeStep)
        ensures
            final(self).id == old(self).id,
            match event {
                PipeRead::Data(bytes) => r == PipeStep::ReadOn && final(self).data@
                    == old(self).data@ + bytes@,
                PipeRead::End => {
                    &&& r matches PipeStep::Complete { id, data } && id == old(self).id && data
                        == old(self).data
                    &&& final(self).data@ == Seq::<u8>::empty()
                },
                PipeRead::NotReady => r == PipeStep::Wait && *final(self) == *old(self),
                PipeRead::Failed => r == PipeStep::Drop && *final(self) == *old(self),
            },
    {
        match event {
            PipeRead::Data(bytes) => {
                self.data.extend_from_slice(bytes);
                assert(self.data@ =~= old(self).data@ + bytes@);
                PipeStep::ReadOn
            },
            PipeRead::End => {
                let mut data: Vec<u8> = Vec::new();
                std::mem::swap(&mut data, &mut self.data);
                PipeStep::Complete { id: self.id, data }
            },
            PipeRead::NotReady => PipeStep::Wait,
            PipeRead::Failed => PipeStep::Drop,
        }
    }
}

/// Who serves a paste on the host: the client that took the selection.
pub open spec fn paste_on_host(
    origin: SelectionOrigin,
    target: SelectionTarget,
    x11: bool,
) -> SelectionCall {
    match origin {
        SelectionOrigin::Wayland => SelectionCall::RequestWayland(target),
        SelectionOrigin::X11 => if x11 {
            SelectionCall::RequestX11(target)
        } else {
            SelectionCall::Close
        },
        SelectionOrigin::Host => SelectionCall::Close,
    }
}

/// Who serves a paste in an X client.
pub open spec fn paste_in_x11(
    origin: SelectionOrigin,
    target: SelectionTarget,
    host: bool,
) -> SelectionCall {
    match origin {
        SelectionOrigin::Wayland => SelectionCall::RequestWayland(target),
        SelectionOrigin::X11 => SelectionCall::Close,
        SelectionOrigin::Host => if host {
            SelectionCall::RequestHost(target)
        } else {
            SelectionCall::Close
        },
    }
}

/// A side that pastes is never asked for what it wants: nothing the host
/// copied is read back from it, nor anything an X client copied from X. What a
/// Wayland client copied is always asked of Wayland.
pub proof fn nobody_serves_their_own_paste(
    origin: SelectionOrigin,
    target: SelectionTarget,
    x11: bool,
    host: bool,
)
    ensures
        !(paste_on_host(origin, target, x11) is RequestHost),
        !(paste_in_x11(origin, target, host) is RequestX11),
        origin == SelectionOrigin::Wayland <==> paste_on_host(origin, target, x11)
            == SelectionCall::RequestWayland(target),
        origin == SelectionOrigin::Wayland <==> paste_in_x11(origin, target, host)
            == SelectionCall::RequestWayland(target),
{
}

/// A copy of a list of strings.
fn copy_list(list: &Vec<String>) -> (r: Vec<String>)
    ensures
        r@ == list@,
{
    let mut copy: Vec<String> = Vec::new();
    let mut i: usize = 0;
    while i < list.len()
        invariant
            i <= list@.len(),
            copy@ == list@.take(i as int),
        decreases list@.len() - i,
    {
        copy.push(list[i].clone());
        assert(copy@ =~= list@.take(i + 1));
        i += 1;
    }
    assert(list@.take(i as int) =~= list@);
    copy
}

// ---------------------------------------------------------------------------
// What pastes promise
// ---------------------------------------------------------------------------

/// The clipboard and the primary selection of `after` are those of `before`, but
/// for the one that is named.
pub open spec fn leaves_the_other_alone(
    before: SelectionState,
    after: SelectionState,
    target: SelectionTarget,
) -> bool {
    &&& target == SelectionTarget::Clipboard ==> after.primary_origin == before.primary_origin
        && after.host_primary_mimes@ == before.host_primary_mimes@
    &&& target == SelectionTarget::Primary ==> after.clipboard_origin == before.clipboard_origin
        && after.host_clipboard_mimes@ == before.host_clipboard_mimes@
}

/// What the host copies is offered to Wayland clients and, where they can be
/// served, to X clients, with the same types; a paste in an X client then asks the
/// host for it, and the host itself is not asked. Where the host clears it,
/// clients lose it. The other selection stays.
pub proof fn host_copies_are_pasted_in_clients(
    s: &mut SelectionState,
    target: SelectionTarget,
    mimes: Vec<String>,
    x11: bool,
    r: Vec<SelectionCall>,
    after: SelectionState,
    host: bool,
    pasted: SelectionCall,
    sent: SelectionCall,
)
    requires
        call_ensures(SelectionState::host_selection_changed, (s, target, mimes, x11), r),
        after == *final(s),
        call_ensures(SelectionState::x11_send_selection, (&after, target, host), pasted),
        call_ensures(SelectionState::host_send_request, (&after, target, x11), sent),
    ensures
        leaves_the_other_alone(*old(s), after, target),
        target == SelectionTarget::Clipboard ==> after.host_clipboard_mimes@ == mimes@,
        target == SelectionTarget::Primary ==> after.host_primary_mimes@ == mimes@,
        mimes@.len() > 0 ==> {
            &&& pasted == if host {
                SelectionCall::RequestHost(target)
            } else {
                SelectionCall::Close
            }
            &&& sent == SelectionCall::Close
            &&& target == SelectionTarget::Clipboard ==> after.clipboard_origin
                == SelectionOrigin::Host
            &&& target == SelectionTarget::Primary ==> after.primary_origin
                == SelectionOrigin::Host
            &&& r@.len() == if x11 { 2nat } else { 1nat }
            &&& (r@[r@.len() - 1] matches SelectionCall::SetWayland(t, m) && t == target && m@
                == mimes@)
            &&& x11 ==> (r@[0] matches SelectionCall::SetX11(t, Some(m)) && t == target && m@
                == mimes@)
        },
        mimes@.len() == 0 ==> {
            &&& r@.len() == if x11 { 2nat } else { 1nat }
            &&& r@[0] == SelectionCall::ClearWayland(target)
            &&& x11 ==> r@[1] == SelectionCall::SetX11(target, None)
            &&& after.clipboard_origin == old(s).clipboard_origin
            &&& after.primary_origin == old(s).primary_origin
        },
{
    assert(after.origin(SelectionTarget::Clipboard) == after.clipboard_origin);
    assert(after.origin(SelectionTarget::Primary) == after.primary_origin);
    assert(old(s).origin(SelectionTarget::Clipboard) == old(s).clipboard_origin);
    assert(old(s).origin(SelectionTarget::Primary) == old(s).primary_origin);
}

/// What an X client copies is offered to Wayland clients at once and to the host
/// where Emacs is connected and the host can be served; a paste on the host then
/// asks X, and one in an X client is left to the X server.
pub proof fn x11_copies_are_pasted_elsewhere(
    s: &mut SelectionState,
    target: SelectionTarget,
    mimes: Vec<String>,
    connected: bool,
    host: bool,
    r: Vec<SelectionCall>,
    after: SelectionState,
    x11: bool,
    pasted: SelectionCall,
    sent: SelectionCall,
)
    requires
        call_ensures(
            SelectionState::x11_new_selection,
            (s, target, mimes, connected, host),
            r,
        ),
        after == *final(s),
        call_ensures(SelectionState::x11_send_selection, (&after, target, host), pasted),
        call_ensures(SelectionState::host_send_request, (&after, target, x11), sent),
    ensures
        leaves_the_other_alone(*old(s), after, target),
        after.host_clipboard_mimes@ == old(s).host_clipboard_mimes@,
        after.host_primary_mimes@ == old(s).host_primary_mimes@,
        pasted == SelectionCall::Close,
        sent == if x11 {
            SelectionCall::RequestX11(target)
        } else {
            SelectionCall::Close
        },
        r@.len() == if connected && host { 2nat } else { 1nat },
        (r@[0] matches SelectionCall::SetWayland(t, m) && t == target && m@ == mimes@),
        connected && host ==> (r@[1] matches SelectionCall::SetHost(t, m) && t == target && m@
            == mimes@),
{
    assert(after.host_mimes(SelectionTarget::Clipboard) == after.host_clipboard_mimes@);
    assert(after.host_mimes(SelectionTarget::Primary) == after.host_primary_mimes@);
    assert(old(s).host_mimes(SelectionTarget::Clipboard) == old(s).host_clipboard_mimes@);
    assert(old(s).host_mimes(SelectionTarget::Primary) == old(s).host_primary_mimes@);
    assert(after.origin(SelectionTarget::Clipboard) == after.clipboard_origin);
    assert(after.origin(SelectionTarget::Primary) == after.primary_origin);
    assert(old(s).origin(SelectionTarget::Clipboard) == old(s).clipboard_origin);
    assert(old(s).origin(SelectionTarget::Primary) == old(s).primary_origin);
}

/// What a Wayland client copies is asked of Wayland, from the host and from X; so
/// is a selection that the host has given up, and one that an X client has, which
/// is then taken from all.
pub proof fn wayland_copies_are_asked_of_wayland(
    s: &mut SelectionState,
    cancelled: &mut SelectionState,
    cleared: &mut SelectionState,
    target: SelectionTarget,
    host: bool,
    r: Vec<SelectionCall>,
    after: SelectionState,
    x11: bool,
    pasted: SelectionCall,
    sent: SelectionCall,
)
    requires
        call_ensures(SelectionState::wayland_new_selection, (s, target), ()),
        call_ensures(SelectionState::source_cancelled, (cancelled, target), ()),
        call_ensures(SelectionState::x11_cleared_selection, (cleared, target, host), r),
        after == *final(s) || after == *final(cancelled) || after == *final(cleared),
        call_ensures(SelectionState::x11_send_selection, (&after, target, host), pasted),
        call_ensures(SelectionState::host_send_request, (&after, target, x11), sent),
    ensures
        pasted == SelectionCall::RequestWayland(target),
        sent == SelectionCall::RequestWayland(target),
        leaves_the_other_alone(*old(s), *final(s), target),
        leaves_the_other_alone(*old(cancelled), *final(cancelled), target),
        leaves_the_other_alone(*old(cleared), *final(cleared), target),
        r@[0] == SelectionCall::ClearWayland(target),
        host ==> r@.len() == 2 && r@[1] == SelectionCall::ClearHost(target),
        !host ==> r@.len() == 1,
        target == SelectionTarget::Clipboard ==> final(cleared).host_clipboard_mimes@.len() == 0
            && final(s).host_clipboard_mimes@ == old(s).host_clipboard_mimes@,
        target == SelectionTarget::Primary ==> final(cleared).host_primary_mimes@.len() == 0
            && final(s).host_primary_mimes@ == old(s).host_primary_mimes@,
{
    lemma_selections(*old(s));
    lemma_selections(*final(s));
    lemma_selections(*old(cancelled));
    lemma_selections(*final(cancelled));
    lemma_selections(*old(cleared));
    lemma_selections(*final(cleared));
}

proof fn lemma_selections(s: SelectionState)
    ensures
        s.origin(SelectionTarget::Clipboard) == s.clipboard_origin,
        s.origin(SelectionTarget::Primary) == s.primary_origin,
        s.host_mimes(SelectionTarget::Clipboard) == s.host_clipboard_mimes@,
        s.host_mimes(SelectionTarget::Primary) == s.host_primary_mimes@,
{
}

/// When X clients come, they are offered what the host offers, and nothing else.
pub proof fn late_x11_clients_get_the_host_selections(
    s: SelectionState,
    r: Vec<SelectionCall>,
)
    requires
        call_ensures(SelectionState::replay, (&s,), r),
    ensures
        ({
            let clipboard = s.host_clipboard_mimes@.len() > 0;
            let primary = s.host_primary_mimes@.len() > 0;
            &&& !clipboard && !primary ==> r@.len() == 0
            &&& clipboard != primary ==> r@.len() == 1
            &&& clipboard && primary ==> r@.len() == 2
            &&& clipboard ==> (r@[0] matches SelectionCall::SetX11(t, Some(m)) && t
                == SelectionTarget::Clipboard && m@ == s.host_clipboard_mimes@)
            &&& primary ==> (r@[r@.len() - 1] matches SelectionCall::SetX11(t, Some(m)) && t
                == SelectionTarget::Primary && m@ == s.host_primary_mimes@)
        }),
{
}

/// A new state knows no offer of the host, and pastes are asked of Wayland.
pub proof fn selections_start_with_wayland(s: SelectionState)
    requires
        call_ensures(SelectionState::new, (), s),
    ensures
        s.clipboard_origin == SelectionOrigin::Wayland,
        s.primary_origin == SelectionOrigin::Wayland,
        s.host_clipboard_mimes@.len() == 0,
        s.host_primary_mimes@.len() == 0,
{
    assert(s.origin(SelectionTarget::Clipboard) == s.clipboard_origin);
    assert(s.origin(SelectionTarget::Primary) == s.primary_origin);
    assert(s.host_mimes(SelectionTarget::Clipboard) == s.host_clipboard_mimes@);
    assert(s.host_mimes(SelectionTarget::Primary) == s.host_primary_mimes@);
}

/// An event of the host leads to what its own operation leads to. A request for
/// data leads to one call, told at once, and changes nothing; the pipe that the
/// data comes back through is read where there is one.
pub proof fn host_events_are_carried_out(
    s: &mut SelectionState,
    event: ClipboardEvent,
    x11: bool,
    r: ClipboardResponse,
    before: SelectionState,
    sent: SelectionCall,
)
    requires
        call_ensures(SelectionState::handle_clipboard_event, (s, event, x11), r),
        before == *old(s),
        event matches ClipboardEvent::HostSendRequest { target, .. } ==> call_ensures(
            SelectionState::host_send_request,
            (&before, target, x11),
            sent,
        ),
    ensures
        event matches ClipboardEvent::HostSendRequest { id, target, piped } ==> {
            &&& r.calls@ == seq![sent]
            &&& r.flush
            &&& piped ==> r.read_pipe == Some(id)
            &&& !piped ==> r.read_pipe is None
            &&& *final(s) == *old(s)
        },
        !(event is HostSendRequest) ==> !r.flush && r.read_pipe is None,
        event matches ClipboardEvent::SourceCancelled { target } ==> {
            &&& r.calls@.len() == 0
            &&& target == SelectionTarget::Clipboard ==> final(s).clipboard_origin
                == SelectionOrigin::Wayland
            &&& target == SelectionTarget::Primary ==> final(s).primary_origin
                == SelectionOrigin::Wayland
            &&& leaves_the_other_alone(*old(s), *final(s), target)
        },
        event matches ClipboardEvent::HostSelectionChanged { target, mime_types } ==> {
            &&& target == SelectionTarget::Clipboard ==> final(s).host_clipboard_mimes@
                == mime_types@
            &&& target == SelectionTarget::Primary ==> final(s).host_primary_mimes@ == mime_types@
            &&& leaves_the_other_alone(*old(s), *final(s), target)
            &&& mime_types@.len() > 0 ==> (r.calls@[r.calls@.len()
                - 1] matches SelectionCall::SetWayland(t, m) && t == target && m@ == mime_types@)
            &&& mime_types@.len() > 0 && x11 ==> (r.calls@[0] matches SelectionCall::SetX11(
                t,
                Some(m),
            ) && t == target && m@ == mime_types@)
            &&& mime_types@.len() == 0 ==> r.calls@[0] == SelectionCall::ClearWayland(target)
            &&& mime_types@.len() == 0 && x11 ==> r.calls@[1] == SelectionCall::SetX11(target, None)
            &&& r.calls@.len() == if x11 { 2nat } else { 1nat }
        },
{
    lemma_selections(*old(s));
    lemma_selections(*final(s));
}

/// The host gets all that the client wrote, in order, once the client closes the
/// pipe, and under the number of its request. A pipe that cannot be opened is
/// answered with nothing; one that fails is dropped; while nothing is there, what
/// was read is kept.
pub proof fn pipes_deliver_what_was_written(
    pipe: &mut OutgoingPipe,
    bytes: &[u8],
    step: PipeStep,
    next: &mut OutgoingPipe,
    done: PipeStep,
    waiting: &mut OutgoingPipe,
    waited: PipeStep,
    failing: &mut OutgoingPipe,
    failed: PipeStep,
    closed: OutgoingPipe,
    refused: PipeStep,
    fresh: OutgoingPipe,
    id: u64,
)
    requires
        call_ensures(OutgoingPipe::read, (pipe, PipeRead::Data(bytes)), step),
        call_ensures(OutgoingPipe::read, (next, PipeRead::End), done),
        call_ensures(OutgoingPipe::read, (waiting, PipeRead::NotReady), waited),
        call_ensures(OutgoingPipe::read, (failing, PipeRead::Failed), failed),
        call_ensures(OutgoingPipe::refused, (closed,), refused),
        call_ensures(OutgoingPipe::new, (id,), fresh),
    ensures
        step == PipeStep::ReadOn,
        final(pipe).data@ == old(pipe).data@ + bytes@,
        final(pipe).id == old(pipe).id,
        (done matches PipeStep::Complete { id, data } && id == old(next).id && data@
            == old(next).data@),
        waited == PipeStep::Wait,
        final(waiting).data@ == old(waiting).data@,
        failed == PipeStep::Drop,
        (refused matches PipeStep::Complete { id, data } && id == closed.id && data@.len() == 0),
        fresh.id == id,
        fresh.data@.len() == 0,
{
}

} // verus!
