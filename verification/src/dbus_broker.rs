//! The in-process broker between embedded clients and the session bus.
//!
//! For each accepted client the event loop dials the real bus and moves bytes
//! both ways. This module holds everything but the sockets: the connections'
//! protocol state, their outgoing buffers, the caret offset and the events
//! that the compositor drains. Method calls to the fcitx frontend are answered
//! here and never reach the bus; everything else passes, with caret
//! coordinates moved where an offset is set.

use crate::broker::laws::{bytes_of, caret_moved, lemma_laid_out_moved, messages_are_laid_out};
use crate::broker::rewrite::{apply_cursor_rewrites, rewrite_all};
use crate::broker::state::{
    feed, laid_out, models, stands_in, ConnectionModel, ConnectionState, Fed, ObservedMessage, ObservedModel, Output,
};
use crate::bytes::append;
use crate::dbus::encode::{
    body_string, fields_bytes, frame, signature_field, string_bytes, Body, Signal, TYPE_SIGNAL,
};
use crate::dbus::laws::{body_signature, encodable, frame_reads_back, lemma_text_fits};
use crate::dbus::message::{
    copy_text, header_of, last_value, text_of, Endian, Fault, FieldModel, HeaderModel,
    MessageError, MessageType, ValueModel, FIELD_DESTINATION, FIELD_ERROR_NAME, FIELD_INTERFACE,
    FIELD_MEMBER, FIELD_PATH, FIELD_REPLY_SERIAL, FIELD_SENDER, FIELD_SIGNATURE, FIELD_UNIX_FDS,
};
use crate::fcitx::{FCITX5_NAME, INPUT_CONTEXT_IFACE};
use crate::text::{
    before_char, chars_of, find_char, lemma_before_char, starts_with_at, string_of,
};
use std::collections::HashMap;
use vstd::prelude::*;
use vstd::utf8::encode_utf8;

verus! {

/// Identifies a connection. Handed out in sequence.
#[derive(Debug, Clone, Copy, PartialEq, Eq, Hash, Structural)]
pub struct ConnId(pub u64);

/// What a pump call says about the connection.
#[derive(Debug, Clone, Copy, PartialEq, Eq, Structural)]
pub enum PumpOutcome {
    /// The connection is still live.
    Active,
    /// The side that was read has closed: the pair is dead.
    PeerClosed,
}

/// A call to the fcitx frontend, as far as the compositor reacts to it.
#[derive(Debug, Clone, PartialEq, Eq)]
pub enum FcitxMethod {
    FocusIn { ic_path: String },
    FocusOut { ic_path: String },
    SetCursorRect { ic_path: String, x: i32, y: i32, w: i32, h: i32 },
    SetCursorRectV2 { ic_path: String, x: i32, y: i32, w: i32, h: i32 },
    SetCursorLocation { ic_path: String, x: i32, y: i32 },
    DestroyIC { ic_path: String },
    /// Any other frontend call.
    Other,
}

/// A change of input-method state on an intercepted connection.
#[derive(Debug, Clone, PartialEq, Eq)]
pub enum FcitxEvent {
    /// An input context gained or lost focus. `rect` is the caret rectangle
    /// known when it gained it.
    FocusChanged { conn: ConnId, ic_path: String, focused: bool, rect: Option<[i32; 4]> },
    /// An input context reported a caret rectangle `[x, y, w, h]`.
    CursorRect { conn: ConnId, ic_path: String, rect: [i32; 4] },
    /// An input context was destroyed.
    IcDestroyed { conn: ConnId, ic_path: String },
}

/// What an [`FcitxEvent`] says.
#[verifier::ext_equal]
pub ghost enum EventModel {
    FocusChanged { conn: ConnId, ic_path: Seq<char>, focused: bool, rect: Option<Seq<i32>> },
    CursorRect { conn: ConnId, ic_path: Seq<char>, rect: Seq<i32> },
    IcDestroyed { conn: ConnId, ic_path: Seq<char> },
}

/// The numbers of an optional rectangle.
pub open spec fn rect_of(rect: Option<[i32; 4]>) -> Option<Seq<i32>> {
    match rect {
        Some(r) => Some(r@),
        None => None,
    }
}

impl View for FcitxEvent {
    type V = EventModel;

    open spec fn view(&self) -> EventModel {
        match *self {
            FcitxEvent::FocusChanged { conn, ic_path, focused, rect } => EventModel::FocusChanged {
                conn,
                ic_path: ic_path@,
                focused,
                rect: rect_of(rect),
            },
            FcitxEvent::CursorRect { conn, ic_path, rect } => EventModel::CursorRect {
                conn,
                ic_path: ic_path@,
                rect: rect@,
            },
            FcitxEvent::IcDestroyed { conn, ic_path } => EventModel::IcDestroyed {
                conn,
                ic_path: ic_path@,
            },
        }
    }
}

/// The models of a sequence of events.
pub open spec fn event_models(events: Seq<FcitxEvent>) -> Seq<EventModel> {
    events.map_values(|e: FcitxEvent| e@)
}

/// The event that a frontend call leads to: focus, caret and destruction
/// matter, other calls do not.
pub open spec fn event_of(conn: ConnId, method: FcitxMethod, rect: Option<[i32; 4]>) -> Option<
    EventModel,
> {
    match method {
        FcitxMethod::FocusIn { ic_path } => Some(
            EventModel::FocusChanged {
                conn,
                ic_path: ic_path@,
                focused: true,
                rect: rect_of(rect),
            },
        ),
        FcitxMethod::FocusOut { ic_path } => Some(
            EventModel::FocusChanged { conn, ic_path: ic_path@, focused: false, rect: None },
        ),
        FcitxMethod::SetCursorRect { ic_path, x, y, w, h } => Some(
            EventModel::CursorRect { conn, ic_path: ic_path@, rect: seq![x, y, w, h] },
        ),
        FcitxMethod::SetCursorRectV2 { ic_path, x, y, w, h } => Some(
            EventModel::CursorRect { conn, ic_path: ic_path@, rect: seq![x, y, w, h] },
        ),
        FcitxMethod::SetCursorLocation { ic_path, x, y } => Some(
            EventModel::CursorRect { conn, ic_path: ic_path@, rect: seq![x, y, 0, 0] },
        ),
        FcitxMethod::DestroyIC { ic_path } => Some(
            EventModel::IcDestroyed { conn, ic_path: ic_path@ },
        ),
        FcitxMethod::Other => None,
    }
}

/// Queues the event that a frontend call leads to, if any. `rect` is the caret
/// rectangle that the input context is known to have.
pub fn emit_fcitx_event(
    events: &mut Vec<FcitxEvent>,
    conn: ConnId,
    method: &FcitxMethod,
    rect: Option<[i32; 4]>,
)
    ensures
        event_models(final(events)@) == match event_of(conn, *method, rect) {
            Some(e) => event_models(old(events)@).push(e),
            None => event_models(old(events)@),
        },
{
    let ghost before = events@;
    let event = match method {
        FcitxMethod::FocusIn { ic_path } => FcitxEvent::FocusChanged {
            conn,
            ic_path: ic_path.clone(),
            focused: true,
            rect,
        },
        FcitxMethod::FocusOut { ic_path } => FcitxEvent::FocusChanged {
            conn,
            ic_path: ic_path.clone(),
            focused: false,
            rect: None,
        },
        FcitxMethod::SetCursorRect { ic_path, x, y, w, h } => FcitxEvent::CursorRect {
            conn,
            ic_path: ic_path.clone(),
            rect: [*x, *y, *w, *h],
        },
        FcitxMethod::SetCursorRectV2 { ic_path, x, y, w, h } => FcitxEvent::CursorRect {
            conn,
            ic_path: ic_path.clone(),
            rect: [*x, *y, *w, *h],
        },
        FcitxMethod::SetCursorLocation { ic_path, x, y } => FcitxEvent::CursorRect {
            conn,
            ic_path: ic_path.clone(),
            rect: [*x, *y, 0, 0],
        },
        FcitxMethod::DestroyIC { ic_path } => FcitxEvent::IcDestroyed {
            conn,
            ic_path: ic_path.clone(),
        },
        FcitxMethod::Other => return ,
    };
    assert(event_of(conn, *method, rect) == Some(event@)) by {
        assert(event@ =~~= event_of(conn, *method, rect)->0);
    }
    events.push(event);
    assert(event_models(events@) =~= event_models(before).push(event@));
}

/// What the fcitx frontend made of a method call that is addressed to it.
#[derive(Debug, Clone)]
pub struct Interception {
    pub method: FcitxMethod,
    /// The reply to send to the client.
    pub reply: Vec<u8>,
    /// The caret rectangle that the input context is known to have.
    pub rect: Option<[i32; 4]>,
}

// ---------------------------------------------------------------------------
// Routing one chunk
// ---------------------------------------------------------------------------

/// The bytes of a message in `forward`.
pub open spec fn message_bytes(forward: Seq<u8>, m: ObservedModel) -> Seq<u8> {
    forward.subrange(m.offset, m.offset + m.length)
}

/// What stays for the bus of the first `n` messages: the bytes in front of the
/// first message, then every message that was not intercepted.
pub open spec fn kept_bytes(
    forward: Seq<u8>,
    messages: Seq<ObservedModel>,
    taken: Seq<Option<Interception>>,
    n: int,
) -> Seq<u8>
    decreases n,
{
    if n <= 0 {
        forward.take(messages[0].offset)
    } else if taken[n - 1] is Some {
        kept_bytes(forward, messages, taken, n - 1)
    } else {
        kept_bytes(forward, messages, taken, n - 1) + message_bytes(forward, messages[n - 1])
    }
}

/// The messages among [`kept_bytes`].
pub open spec fn kept_messages(
    forward: Seq<u8>,
    messages: Seq<ObservedModel>,
    taken: Seq<Option<Interception>>,
    n: int,
) -> Seq<ObservedModel>
    decreases n,
{
    if n <= 0 {
        seq![]
    } else if taken[n - 1] is Some {
        kept_messages(forward, messages, taken, n - 1)
    } else {
        kept_messages(forward, messages, taken, n - 1).push(
            ObservedModel {
                offset: kept_bytes(forward, messages, taken, n - 1).len() as int,
                ..messages[n - 1]
            },
        )
    }
}

/// What goes to the bus: the kept bytes, with caret coordinates moved where an
/// offset is set.
pub open spec fn upstream_bytes(
    forward: Seq<u8>,
    messages: Seq<ObservedModel>,
    taken: Seq<Option<Interception>>,
    offset: Option<(i32, i32)>,
) -> Seq<u8> {
    let n = messages.len() as int;
    if n == 0 {
        forward
    } else {
        match offset {
            None => kept_bytes(forward, messages, taken, n),
            Some(delta) => rewrite_all(
                kept_bytes(forward, messages, taken, n),
                kept_messages(forward, messages, taken, n),
                delta,
            ),
        }
    }
}

/// The replies to the intercepted ones of the first `n` messages.
pub open spec fn reply_bytes(taken: Seq<Option<Interception>>, n: int) -> Seq<u8>
    decreases n,
{
    if n <= 0 {
        seq![]
    } else {
        match taken[n - 1] {
            Some(t) => reply_bytes(taken, n - 1) + t.reply@,
            None => reply_bytes(taken, n - 1),
        }
    }
}

/// The events that the intercepted ones of the first `n` messages lead to.
pub open spec fn events_of(conn: ConnId, taken: Seq<Option<Interception>>, n: int) -> Seq<
    EventModel,
>
    decreases n,
{
    if n <= 0 {
        seq![]
    } else {
        match taken[n - 1] {
            Some(t) => match event_of(conn, t.method, t.rect) {
                Some(e) => events_of(conn, taken, n - 1).push(e),
                None => events_of(conn, taken, n - 1),
            },
            None => events_of(conn, taken, n - 1),
        }
    }
}

/// A name that the bus assigned to one connection.
pub open spec fn is_unique_name(name: Seq<char>) -> bool {
    name.len() > 0 && name[0] == ':'
}

/// The name by which the client knows the frontend: the last unique name that
/// one of the first `n` messages, intercepted, was sent to.
pub open spec fn server_name(
    before: Option<Seq<char>>,
    messages: Seq<ObservedModel>,
    taken: Seq<Option<Interception>>,
    n: int,
) -> Option<Seq<char>>
    decreases n,
{
    if n <= 0 {
        before
    } else {
        match messages[n - 1].header.destination {
            Some(dest) => if taken[n - 1] is Some && is_unique_name(dest) {
                Some(dest)
            } else {
                server_name(before, messages, taken, n - 1)
            },
            None => server_name(before, messages, taken, n - 1),
        }
    }
}

/// A message that lies in the `len` bytes of its chunk and has room for its
/// body.
pub open spec fn lies_in(m: ObservedModel, len: int) -> bool {
    0 <= m.offset && m.offset + m.length <= len && m.header.body_len <= m.length
}

/// What a connection holds between events.
#[verifier::ext_equal]
pub ghost struct ConnModel {
    pub state: ConnectionModel,
    pub client_out: Seq<u8>,
    pub upstream_out: Seq<u8>,
    pub serial: u32,
    pub server_name: Option<Seq<char>>,
}

/// A connection after a chunk was routed.
pub open spec fn routed(
    c: ConnModel,
    forward: Seq<u8>,
    messages: Seq<ObservedModel>,
    taken: Seq<Option<Interception>>,
    offset: Option<(i32, i32)>,
) -> ConnModel {
    let n = messages.len() as int;
    ConnModel {
        client_out: c.client_out + reply_bytes(taken, n),
        upstream_out: c.upstream_out + upstream_bytes(forward, messages, taken, offset),
        server_name: server_name(c.server_name, messages, taken, n),
        ..c
    }
}

/// The protocol side of one client and its bus connection.
#[derive(Debug, Clone)]
pub struct Connection {
    state: ConnectionState,
    /// Bytes waiting to be written to the client.
    client_out: Vec<u8>,
    /// Bytes waiting to be written to the bus.
    upstream_out: Vec<u8>,
    /// The serial of the last message made here.
    serial_counter: u32,
    /// The name by which the client knows the fcitx frontend.
    fcitx_server_name: Option<String>,
}

impl View for Connection {
    type V = ConnModel;

    closed spec fn view(&self) -> ConnModel {
        ConnModel {
            state: self.state@,
            client_out: self.client_out@,
            upstream_out: self.upstream_out@,
            serial: self.serial_counter,
            server_name: text_of(self.fcitx_server_name),
        }
    }
}

/// A connection on which nothing has happened.
pub open spec fn fresh_connection() -> ConnModel {
    ConnModel {
        state: ConnectionModel { authed: false, seen: seq![], pending: seq![] },
        client_out: seq![],
        upstream_out: seq![],
        serial: 0,
        server_name: None,
    }
}

impl Connection {
    pub fn new() -> (r: Connection)
        ensures
            r@ == fresh_connection(),
            r@.state.wf(),
    {
        Connection {
            state: ConnectionState::new(),
            client_out: Vec::new(),
            upstream_out: Vec::new(),
            serial_counter: 0,
            fcitx_server_name: None,
        }
    }

    /// Routes the messages of a chunk: `taken[i]` is what the fcitx frontend
    /// made of message `i`, `None` where it is not addressed to it.
    pub fn route(
        &mut self,
        id: ConnId,
        out: &Output,
        taken: &[Option<Interception>],
        offset: Option<(i32, i32)>,
        events: &mut Vec<FcitxEvent>,
    )
        requires
            taken@.len() == out.messages@.len(),
            forall|i: int|
                0 <= i < out.messages@.len() ==> lies_in(
                    (#[trigger] out.messages@[i])@,
                    out.forward@.len() as int,
                ),
        ensures
            final(self)@ == routed(
                old(self)@,
                out.forward@,
                models(out.messages@),
                taken@,
                offset,
            ),
            event_models(final(events)@) == event_models(old(events)@) + events_of(
                id,
                taken@,
                taken@.len() as int,
            ),
    {
        let ghost forward = out.forward@;
        let ghost messages = models(out.messages@);
        let ghost start = *self;
        let ghost queue = event_models(events@);
        if out.messages.is_empty() {
            append(&mut self.upstream_out, out.forward.as_slice());
            assert(queue + events_of(id, taken@, 0) =~= queue);
            assert(start.client_out@ + reply_bytes(taken@, 0) =~= start.client_out@);
            return ;
        }
        let mut kept = Output { forward: Vec::new(), messages: Vec::new() };
        append(&mut kept.forward, &out.forward[0..out.messages[0].offset]);
        let mut i: usize = 0;
        proof {
            assert(kept.forward@ =~= forward.take(messages[0].offset));
            assert(models(kept.messages@) =~= seq![]);
            assert(queue + events_of(id, taken@, 0) =~= queue);
            assert(start.client_out@ + reply_bytes(taken@, 0) =~= start.client_out@);
        }
        while i < out.messages.len()
            invariant
                i <= out.messages@.len(),
                taken@.len() == out.messages@.len(),
                messages == models(out.messages@),
                forward == out.forward@,
                forall|k: int|
                    0 <= k < out.messages@.len() ==> lies_in(
                        (#[trigger] out.messages@[k])@,
                        forward.len() as int,
                    ),
                kept.forward@ == kept_bytes(forward, messages, taken@, i as int),
                models(kept.messages@) == kept_messages(forward, messages, taken@, i as int),
                forall|k: int|
                    0 <= k < kept.messages@.len() ==> lies_in(
                        (#[trigger] kept.messages@[k])@,
                        kept.forward@.len() as int,
                    ),
                self.state == start.state,
                self.upstream_out == start.upstream_out,
                self.serial_counter == start.serial_counter,
                self.client_out@ == start.client_out@ + reply_bytes(taken@, i as int),
                text_of(self.fcitx_server_name) == server_name(
                    text_of(start.fcitx_server_name),
                    messages,
                    taken@,
                    i as int,
                ),
                event_models(events@) == queue + events_of(id, taken@, i as int),
            decreases out.messages@.len() - i,
        {
            let msg = &out.messages[i];
            assert(msg@ == messages[i as int]);
            assert(lies_in(out.messages@[i as int]@, forward.len() as int));
            assert(msg.offset + msg.length <= out.forward.len());
            match &taken[i] {
                Some(t) => {
                    match &msg.header.destination {
                        Some(dest) => {
                            if !dest.as_str().is_empty() && dest.as_str().get_char(0) == ':' {
                                self.fcitx_server_name = Some(dest.clone());
                            }
                        },
                        None => {},
                    }
                    let ghost sent = reply_bytes(taken@, i as int);
                    append(&mut self.client_out, t.reply.as_slice());
                    assert(start.client_out@ + sent + t.reply@ =~= start.client_out@ + (sent
                        + t.reply@));
                    let ghost told = events_of(id, taken@, i as int);
                    emit_fcitx_event(events, id, &t.method, t.rect);
                    proof {
                        if let Some(e) = event_of(id, t.method, t.rect) {
                            assert((queue + told).push(e) =~= queue + told.push(e));
                        }
                    }
                },
                None => {
                    let ghost before = kept.messages@;
                    let at: usize = kept.forward.len();
                    let end: usize = msg.offset + msg.length;
                    append(&mut kept.forward, &out.forward[msg.offset..end]);
                    let header = msg.header.copy();
                    let moved = ObservedMessage { header, offset: at, length: msg.length };
                    kept.messages.push(moved);
                    assert(models(kept.messages@) =~= models(before).push(moved@));
                },
            }
            i += 1;
        }
        match offset {
            Some(delta) => {
                assert forall|k: int| 0 <= k < kept.messages@.len() implies
                    crate::broker::rewrite::body_lies_in(
                    (#[trigger] kept.messages@[k])@,
                    kept.forward@.len() as int,
                ) by {
                    assert(lies_in(kept.messages@[k]@, kept.forward@.len() as int));
                }
                apply_cursor_rewrites(&mut kept, delta);
            },
            None => {},
        }
        append(&mut self.upstream_out, kept.forward.as_slice());
    }
}

// ---------------------------------------------------------------------------
// Messages made here
// ---------------------------------------------------------------------------

/// The serial after `n`: counted up, never zero.
pub open spec fn next_serial(n: u32) -> u32 {
    if n == u32::MAX {
        1
    } else {
        (n + 1) as u32
    }
}

/// Advances a serial counter and gives the serial to use.
pub fn next_nonzero(counter: &mut u32) -> (r: u32)
    ensures
        r == next_serial(*old(counter)),
        *final(counter) == r,
        r != 0,
{
    if *counter == u32::MAX {
        *counter = 1;
    } else {
        *counter = *counter + 1;
    }
    *counter
}

/// The sender of signals made here: the name by which the client knows the
/// frontend, else the well-known one. Clients drop signals from other senders.
pub open spec fn signal_sender(server_name: Option<Seq<char>>) -> Seq<char> {
    match server_name {
        Some(name) => name,
        None => FCITX5_NAME@,
    }
}

/// The header fields of an input-context signal with a body of signature `sig`.
pub open spec fn signal_fields(
    ic_path: Seq<char>,
    member: Seq<char>,
    sender: Seq<char>,
    sig: Seq<char>,
) -> Seq<FieldModel> {
    seq![
        FieldModel { code: FIELD_PATH, value: ValueModel::Text(ic_path) },
        FieldModel { code: FIELD_INTERFACE, value: ValueModel::Text(INPUT_CONTEXT_IFACE@) },
        FieldModel { code: FIELD_MEMBER, value: ValueModel::Text(member) },
        FieldModel { code: FIELD_SENDER, value: ValueModel::Text(sender) },
    ] + signature_field(sig)
}

/// A connection after a signal from the input context `ic_path` was queued for
/// its client.
pub open spec fn signalled(
    c: ConnModel,
    ic_path: Seq<char>,
    member: Seq<char>,
    sig: Seq<char>,
    body: Seq<u8>,
) -> ConnModel {
    ConnModel {
        serial: next_serial(c.serial),
        client_out: c.client_out + frame(
            TYPE_SIGNAL,
            next_serial(c.serial),
            fields_bytes(signal_fields(ic_path, member, signal_sender(c.server_name), sig)),
            body,
        ),
        ..c
    }
}

impl Connection {
    /// Queues a signal from the input context `ic_path` for the client.
    pub fn signal(&mut self, ic_path: &str, member: &str, body: Body)
        ensures
            final(self)@ == signalled(
                old(self)@,
                ic_path@,
                member@,
                body.signature@,
                body.bytes@,
            ),
    {
        let serial: u32 = next_nonzero(&mut self.serial_counter);
        let name = copy_text(&self.fcitx_server_name);
        let sender: &str = match &name {
            Some(n) => n.as_str(),
            None => FCITX5_NAME,
        };
        let signal = Signal {
            our_serial: serial,
            path: ic_path,
            interface: INPUT_CONTEXT_IFACE,
            member,
            destination: None,
            sender: Some(sender),
            body,
        };
        let bytes = signal.encode();
        assert(signal.fields() =~= signal_fields(ic_path@, member@, sender@, body.signature@));
        append(&mut self.client_out, bytes.as_slice());
    }

    /// Queues the signal that commits `text` to the client.
    pub fn commit_string(&mut self, ic_path: &str, text: &str)
        ensures
            final(self)@ == signalled(
                old(self)@,
                ic_path@,
                "CommitString"@,
                seq!['s'],
                string_bytes(0, text@),
            ),
    {
        self.signal(ic_path, "CommitString", body_string(text));
    }

    /// Queues the signal that shows pre-edit text, packed in `body`.
    pub fn update_preedit(&mut self, ic_path: &str, body: Body)
        ensures
            final(self)@ == signalled(
                old(self)@,
                ic_path@,
                "UpdateFormattedPreedit"@,
                body.signature@,
                body.bytes@,
            ),
    {
        self.signal(ic_path, "UpdateFormattedPreedit", body);
    }

    /// Takes the next bytes from the client.
    pub fn client_feed(&mut self, data: &[u8]) -> (r: Result<Output, MessageError>)
        requires
            old(self)@.state.wf(),
        ensures
            final(self)@.state.wf(),
            match r {
                Ok(out) => {
                    &&& feed(old(self)@.state, data@) == Ok::<Fed, Fault>(
                        (final(self)@.state, out.forward@, models(out.messages@)),
                    )
                    &&& final(self)@ == (ConnModel { state: final(self)@.state, ..old(self)@ })
                },
                Err(e) => {
                    &&& feed(old(self)@.state, data@) == Err::<Fed, Fault>(e@)
                    &&& final(self)@ == old(self)@
                },
            },
    {
        self.state.client_feed(data)
    }

    /// Queues bytes from the bus for the client.
    pub fn from_upstream(&mut self, data: &[u8])
        ensures
            final(self)@ == (ConnModel { client_out: old(self)@.client_out + data@, ..old(self)@ }),
    {
        append(&mut self.client_out, data);
    }

    /// The bytes that wait for the client.
    pub fn client_out(&self) -> (r: &[u8])
        ensures
            r@ == self@.client_out,
    {
        self.client_out.as_slice()
    }

    /// The bytes that wait for the bus.
    pub fn upstream_out(&self) -> (r: &[u8])
        ensures
            r@ == self@.upstream_out,
    {
        self.upstream_out.as_slice()
    }

    /// Drops the first `n` bytes that waited for the client: they were written.
    pub fn client_wrote(&mut self, n: usize)
        requires
            n <= old(self)@.client_out.len(),
        ensures
            final(self)@ == (ConnModel {
                client_out: old(self)@.client_out.skip(n as int),
                ..old(self)@
            }),
    {
        self.client_out = drop_front(self.client_out.as_slice(), n);
    }

    /// Drops the first `n` bytes that waited for the bus: they were written.
    pub fn upstream_wrote(&mut self, n: usize)
        requires
            n <= old(self)@.upstream_out.len(),
        ensures
            final(self)@ == (ConnModel {
                upstream_out: old(self)@.upstream_out.skip(n as int),
                ..old(self)@
            }),
    {
        self.upstream_out = drop_front(self.upstream_out.as_slice(), n);
    }
}

/// A buffer without its first `n` bytes.
fn drop_front(buf: &[u8], n: usize) -> (r: Vec<u8>)
    requires
        n <= buf@.len(),
    ensures
        r@ == buf@.skip(n as int),
{
    let mut rest: Vec<u8> = Vec::new();
    append(&mut rest, &buf[n..buf.len()]);
    assert(rest@ =~= buf@.skip(n as int));
    rest
}

// ---------------------------------------------------------------------------
// The broker
// ---------------------------------------------------------------------------

/// What reading from one side of a pair gave. Errors of the socket itself are
/// the event loop's.
#[derive(Debug, Clone, Copy)]
pub enum ReadEvent<'a> {
    /// End of file.
    Closed,
    /// Nothing there yet, or the call was interrupted.
    NotReady,
    /// Some bytes.
    Data(&'a [u8]),
}

/// What to do after client bytes arrived.
#[derive(Debug, Clone)]
pub enum ClientPump {
    /// Nothing more to do for this read.
    Done(PumpOutcome),
    /// The client sent a malformed message: close the connection.
    Malformed(MessageError),
    /// Ask the fcitx frontend about each message, then call
    /// [`DbusBroker::finish_client_pump`].
    Inspect(Output),
}

/// What a broker holds.
#[verifier::ext_equal]
pub ghost struct BrokerModel {
    pub offset: Option<(i32, i32)>,
    pub connections: Map<u64, ConnModel>,
    pub next_id: u64,
    pub events: Seq<EventModel>,
}

impl BrokerModel {
    /// Identifiers in use are older than the next one, so a new connection
    /// never takes over an old one's.
    pub open spec fn wf(self) -> bool {
        forall|id: u64| #[trigger]
            self.connections.contains_key(id) ==> id < self.next_id
                && self.connections[id].state.wf()
    }

    /// The broker with connection `id` replaced by `c`.
    pub open spec fn with(self, id: ConnId, c: ConnModel) -> BrokerModel {
        BrokerModel { connections: self.connections.insert(id.0, c), ..self }
    }
}

/// The broker without its sockets.
#[derive(Debug)]
pub struct DbusBroker {
    offset: Option<(i32, i32)>,
    connections: HashMap<u64, Connection>,
    next_id: u64,
    events: Vec<FcitxEvent>,
}

impl View for DbusBroker {
    type V = BrokerModel;

    closed spec fn view(&self) -> BrokerModel {
        BrokerModel {
            offset: self.offset,
            connections: self.connections@.map_values(|c: Connection| c@),
            next_id: self.next_id,
            events: event_models(self.events@),
        }
    }
}

impl DbusBroker {
    pub fn new() -> (r: DbusBroker)
        ensures
            r@ == (BrokerModel {
                offset: None,
                connections: Map::empty(),
                next_id: 1,
                events: seq![],
            }),
            r@.wf(),
    {
        let r = DbusBroker {
            offset: None,
            connections: HashMap::new(),
            next_id: 1,
            events: Vec::new(),
        };
        assert(r@.connections =~= Map::empty());
        assert(r@.events =~= seq![]);
        r
    }

    /// The caret offset in force. `None` passes coordinates unchanged.
    pub fn offset(&self) -> (r: Option<(i32, i32)>)
        ensures
            r == self@.offset,
    {
        self.offset
    }

    pub fn set_offset(&mut self, off: Option<(i32, i32)>)
        ensures
            final(self)@ == (BrokerModel { offset: off, ..old(self)@ }),
    {
        self.offset = off;
    }

    /// Registers an accepted client whose bus connection is dialled.
    pub fn accept_one(&mut self) -> (r: ConnId)
        requires
            old(self)@.wf(),
            old(self)@.next_id < u64::MAX,
        ensures
            final(self)@.wf(),
            r.0 == old(self)@.next_id,
            !old(self)@.connections.contains_key(r.0),
            final(self)@ == (BrokerModel {
                next_id: (r.0 + 1) as u64,
                ..old(self)@.with(r, fresh_connection())
            }),
    {
        let ghost before = self.connections@;
        let id: u64 = self.next_id;
        proof {
            assert(self@.connections.contains_key(id) ==> id < self@.next_id);
        }
        let conn = Connection::new();
        self.connections.insert(id, conn);
        self.next_id = id + 1;
        proof {
            let views = before.map_values(|c: Connection| c@);
            assert(self@.connections =~= views.insert(id, conn@));
            assert forall|k: u64| #[trigger] self@.connections.contains_key(k) implies k
                < self@.next_id && self@.connections[k].state.wf() by {
                if k != id {
                    assert(old(self)@.connections.contains_key(k));
                }
            }
        }
        ConnId(id)
    }

    /// Drops a connection.
    pub fn remove_connection(&mut self, id: ConnId)
        requires
            old(self)@.wf(),
        ensures
            final(self)@.wf(),
            final(self)@ == (BrokerModel {
                connections: old(self)@.connections.remove(id.0),
                ..old(self)@
            }),
    {
        let ghost before = self.connections@;
        self.connections.remove(&id.0);
        proof {
            let views = before.map_values(|c: Connection| c@);
            assert(self@.connections =~= views.remove(id.0));
            assert forall|k: u64| #[trigger] self@.connections.contains_key(k) implies k
                < self@.next_id && self@.connections[k].state.wf() by {
                assert(old(self)@.connections.contains_key(k));
            }
        }
    }

    /// Hands out all queued events.
    pub fn drain_events(&mut self) -> (r: Vec<FcitxEvent>)
        ensures
            event_models(r@) == old(self)@.events,
            final(self)@ == (BrokerModel { events: seq![], ..old(self)@ }),
    {
        let mut taken: Vec<FcitxEvent> = Vec::new();
        core::mem::swap(&mut taken, &mut self.events);
        assert(self@.events =~= seq![]);
        taken
    }

    /// Takes connection `id` out of the table.
    fn take(&mut self, id: ConnId) -> (r: Option<Connection>)
        ensures
            match r {
                Some(c) => {
                    &&& old(self)@.connections.contains_key(id.0)
                    &&& c@ == old(self)@.connections[id.0]
                    &&& final(self)@ == (BrokerModel {
                        connections: old(self)@.connections.remove(id.0),
                        ..old(self)@
                    })
                },
                None => !old(self)@.connections.contains_key(id.0) && final(self)@ == old(self)@,
            },
    {
        let ghost before = self.connections@;
        let r = self.connections.remove(&id.0);
        proof {
            let views = before.map_values(|c: Connection| c@);
            assert(self@.connections =~= views.remove(id.0));
            if r is None {
                assert(views.remove(id.0) =~= views);
            }
        }
        r
    }

    /// Puts a connection back into the table.
    fn put(&mut self, id: ConnId, conn: Connection)
        ensures
            final(self)@ == old(self)@.with(id, conn@),
    {
        let ghost before = self.connections@;
        self.connections.insert(id.0, conn);
        proof {
            let views = before.map_values(|c: Connection| c@);
            assert(self@.connections =~= views.insert(id.0, conn@));
        }
    }

    /// Client-to-bus pump, first half: takes what was read from the client of
    /// `id`. A connection that is not known counts as closed.
    pub fn pump_client_to_upstream(&mut self, id: ConnId, read: ReadEvent) -> (r: ClientPump)
        requires
            old(self)@.wf(),
        ensures
            final(self)@.wf(),
            if !old(self)@.connections.contains_key(id.0) {
                r == ClientPump::Done(PumpOutcome::PeerClosed) && final(self)@ == old(self)@
            } else {
                let c = old(self)@.connections[id.0];
                match read {
                    ReadEvent::Closed => r == ClientPump::Done(PumpOutcome::PeerClosed)
                        && final(self)@ == old(self)@,
                    ReadEvent::NotReady => r == ClientPump::Done(PumpOutcome::Active)
                        && final(self)@ == old(self)@,
                    ReadEvent::Data(data) => match r {
                        ClientPump::Inspect(out) => match feed(c.state, data@) {
                            Ok((state, forward, messages)) => {
                                &&& out.forward@ == forward
                                &&& models(out.messages@) == messages
                                &&& final(self)@ == old(self)@.with(id, ConnModel { state, ..c })
                            },
                            Err(_) => false,
                        },
                        ClientPump::Malformed(e) => feed(c.state, data@) == Err::<Fed, Fault>(e@)
                            && final(self)@ == old(self)@,
                        ClientPump::Done(_) => false,
                    },
                }
            },
    {
        let mut conn = match self.take(id) {
            Some(conn) => conn,
            None => return ClientPump::Done(PumpOutcome::PeerClosed),
        };
        let ghost c = conn@;
        assert(old(self)@.connections.contains_key(id.0));
        let r = match read {
            ReadEvent::Closed => ClientPump::Done(PumpOutcome::PeerClosed),
            ReadEvent::NotReady => ClientPump::Done(PumpOutcome::Active),
            ReadEvent::Data(data) => match conn.client_feed(data) {
                Ok(out) => ClientPump::Inspect(out),
                Err(e) => ClientPump::Malformed(e),
            },
        };
        let ghost after = conn@;
        self.put(id, conn);
        proof {
            let table = old(self)@.connections;
            assert(table.remove(id.0).insert(id.0, after) =~= table.insert(id.0, after));
            assert(table.insert(id.0, c) =~= table);
            assert forall|k: u64| #[trigger] self@.connections.contains_key(k) implies k
                < self@.next_id && self@.connections[k].state.wf() by {
                assert(table.contains_key(k));
            }
        }
        r
    }

    /// Client-to-bus pump, second half: routes the messages of a chunk, given
    /// what the fcitx frontend made of each.
    pub fn finish_client_pump(
        &mut self,
        id: ConnId,
        out: &Output,
        taken: &[Option<Interception>],
    ) -> (r: PumpOutcome)
        requires
            old(self)@.wf(),
            taken@.len() == out.messages@.len(),
            forall|i: int|
                0 <= i < out.messages@.len() ==> lies_in(
                    (#[trigger] out.messages@[i])@,
                    out.forward@.len() as int,
                ),
        ensures
            final(self)@.wf(),
            if !old(self)@.connections.contains_key(id.0) {
                r == PumpOutcome::PeerClosed && final(self)@ == old(self)@
            } else {
                &&& r == PumpOutcome::Active
                &&& final(self)@ == (BrokerModel {
                    events: old(self)@.events + events_of(id, taken@, taken@.len() as int),
                    ..old(self)@.with(
                        id,
                        routed(
                            old(self)@.connections[id.0],
                            out.forward@,
                            models(out.messages@),
                            taken@,
                            old(self)@.offset,
                        ),
                    )
                })
            },
    {
        let mut conn = match self.take(id) {
            Some(conn) => conn,
            None => return PumpOutcome::PeerClosed,
        };
        assert(old(self)@.connections.contains_key(id.0));
        conn.route(id, out, taken, self.offset, &mut self.events);
        let ghost after = conn@;
        self.put(id, conn);
        proof {
            let table = old(self)@.connections;
            assert(table.remove(id.0).insert(id.0, after) =~= table.insert(id.0, after));
            assert forall|k: u64| #[trigger] self@.connections.contains_key(k) implies k
                < self@.next_id && self@.connections[k].state.wf() by {
                assert(table.contains_key(k));
            }
        }
        PumpOutcome::Active
    }

    /// Bus-to-client pump: what was read from the bus goes to the client as it
    /// is.
    pub fn pump_upstream_to_client(&mut self, id: ConnId, read: ReadEvent) -> (r: PumpOutcome)
        requires
            old(self)@.wf(),
        ensures
            final(self)@.wf(),
            if !old(self)@.connections.contains_key(id.0) {
                r == PumpOutcome::PeerClosed && final(self)@ == old(self)@
            } else {
                let c = old(self)@.connections[id.0];
                match read {
                    ReadEvent::Closed => r == PumpOutcome::PeerClosed && final(self)@ == old(self)@,
                    ReadEvent::NotReady => r == PumpOutcome::Active && final(self)@ == old(self)@,
                    ReadEvent::Data(data) => r == PumpOutcome::Active && final(self)@ == old(
                        self,
                    )@.with(id, ConnModel { client_out: c.client_out + data@, ..c }),
                }
            },
    {
        let mut conn = match self.take(id) {
            Some(conn) => conn,
            None => return PumpOutcome::PeerClosed,
        };
        let ghost c = conn@;
        assert(old(self)@.connections.contains_key(id.0));
        let r = match read {
            ReadEvent::Closed => PumpOutcome::PeerClosed,
            ReadEvent::NotReady => PumpOutcome::Active,
            ReadEvent::Data(data) => {
                conn.from_upstream(data);
                PumpOutcome::Active
            },
        };
        let ghost after = conn@;
        self.put(id, conn);
        proof {
            let table = old(self)@.connections;
            assert(table.remove(id.0).insert(id.0, after) =~= table.insert(id.0, after));
            assert(table.insert(id.0, c) =~= table);
            assert forall|k: u64| #[trigger] self@.connections.contains_key(k) implies k
                < self@.next_id && self@.connections[k].state.wf() by {
                assert(table.contains_key(k));
            }
        }
        r
    }

    /// Queues the signal that commits `text` to the client of `conn`.
    pub fn emit_commit_string(&mut self, conn: ConnId, ic_path: &str, text: &str)
        requires
            old(self)@.wf(),
        ensures
            final(self)@.wf(),
            final(self)@ == if old(self)@.connections.contains_key(conn.0) {
                old(self)@.with(
                    conn,
                    signalled(
                        old(self)@.connections[conn.0],
                        ic_path@,
                        "CommitString"@,
                        seq!['s'],
                        string_bytes(0, text@),
                    ),
                )
            } else {
                old(self)@
            },
    {
        let mut c = match self.take(conn) {
            Some(c) => c,
            None => return ,
        };
        assert(old(self)@.connections.contains_key(conn.0));
        c.commit_string(ic_path, text);
        let ghost after = c@;
        self.put(conn, c);
        proof {
            let table = old(self)@.connections;
            assert(table.remove(conn.0).insert(conn.0, after) =~= table.insert(conn.0, after));
            assert forall|k: u64| #[trigger] self@.connections.contains_key(k) implies k
                < self@.next_id && self@.connections[k].state.wf() by {
                assert(table.contains_key(k));
            }
        }
    }

    /// Queues the signal that shows pre-edit text, packed in `body`, in the
    /// client of `conn`.
    pub fn emit_preedit(&mut self, conn: ConnId, ic_path: &str, body: Body)
        requires
            old(self)@.wf(),
        ensures
            final(self)@.wf(),
            final(self)@ == if old(self)@.connections.contains_key(conn.0) {
                old(self)@.with(
                    conn,
                    signalled(
                        old(self)@.connections[conn.0],
                        ic_path@,
                        "UpdateFormattedPreedit"@,
                        body.signature@,
                        body.bytes@,
                    ),
                )
            } else {
                old(self)@
            },
    {
        let mut c = match self.take(conn) {
            Some(c) => c,
            None => return ,
        };
        assert(old(self)@.connections.contains_key(conn.0));
        c.update_preedit(ic_path, body);
        let ghost after = c@;
        self.put(conn, c);
        proof {
            let table = old(self)@.connections;
            assert(table.remove(conn.0).insert(conn.0, after) =~= table.insert(conn.0, after));
            assert forall|k: u64| #[trigger] self@.connections.contains_key(k) implies k
                < self@.next_id && self@.connections[k].state.wf() by {
                assert(table.contains_key(k));
            }
        }
    }
}

/// What writing to one side of a pair gave. Errors of the socket itself are the
/// event loop's.
#[derive(Debug, Clone, Copy, PartialEq, Eq, Structural)]
pub enum WriteEvent {
    /// The socket takes nothing more for now.
    NotReady,
    /// The call was interrupted.
    Interrupted,
    /// So many bytes were taken; none means that the socket takes nothing more.
    Wrote(usize),
}

impl WriteEvent {
    /// The bytes that left the queue.
    pub open spec fn taken(self) -> int {
        match self {
            WriteEvent::Wrote(n) => n as int,
            _ => 0,
        }
    }

    /// Whether to write again, with `left` bytes still queued.
    pub open spec fn goes_on(self, left: int) -> bool {
        left > 0 && match self {
            WriteEvent::NotReady => false,
            WriteEvent::Interrupted => true,
            WriteEvent::Wrote(n) => n > 0,
        }
    }
}

/// Which side of a pair.
#[derive(Debug, Clone, Copy, PartialEq, Eq, Structural)]
pub enum Side {
    Client,
    Upstream,
}

/// The bytes that wait for one side of a connection.
pub open spec fn queue_of(c: ConnModel, side: Side) -> Seq<u8> {
    match side {
        Side::Client => c.client_out,
        Side::Upstream => c.upstream_out,
    }
}

/// A connection with the bytes that wait for one side replaced.
pub open spec fn with_queue(c: ConnModel, side: Side, queue: Seq<u8>) -> ConnModel {
    match side {
        Side::Client => ConnModel { client_out: queue, ..c },
        Side::Upstream => ConnModel { upstream_out: queue, ..c },
    }
}

impl DbusBroker {
    /// The bytes that wait for one side of connection `id`: what the event
    /// loop writes next. Empty where the connection is not known.
    pub fn waiting(&self, id: ConnId, side: Side) -> (r: Vec<u8>)
        ensures
            r@ == if self@.connections.contains_key(id.0) {
                queue_of(self@.connections[id.0], side)
            } else {
                seq![]
            },
    {
        let mut bytes: Vec<u8> = Vec::new();
        match self.connections.get(&id.0) {
            Some(c) => {
                assert(self@.connections[id.0] == c@);
                match side {
                    Side::Client => append(&mut bytes, c.client_out()),
                    Side::Upstream => append(&mut bytes, c.upstream_out()),
                }
                assert(bytes@ =~= queue_of(c@, side));
            },
            None => {},
        }
        bytes
    }

    /// Takes what writing to one side of connection `id` gave and says whether
    /// to write again.
    pub fn after_write(&mut self, id: ConnId, side: Side, event: WriteEvent) -> (r: bool)
        requires
            old(self)@.wf(),
            old(self)@.connections.contains_key(id.0) ==> event.taken() <= queue_of(
                old(self)@.connections[id.0],
                side,
            ).len(),
        ensures
            final(self)@.wf(),
            if !old(self)@.connections.contains_key(id.0) {
                !r && final(self)@ == old(self)@
            } else {
                let c = old(self)@.connections[id.0];
                let left = queue_of(c, side).skip(event.taken());
                &&& final(self)@ == old(self)@.with(id, with_queue(c, side, left))
                &&& r == event.goes_on(left.len() as int)
            },
    {
        let mut conn = match self.take(id) {
            Some(conn) => conn,
            None => return false,
        };
        let ghost c = conn@;
        assert(old(self)@.connections.contains_key(id.0));
        let taken: usize = match event {
            WriteEvent::Wrote(n) => n,
            _ => 0,
        };
        let left: usize = match side {
            Side::Client => {
                conn.client_wrote(taken);
                conn.client_out().len()
            },
            Side::Upstream => {
                conn.upstream_wrote(taken);
                conn.upstream_out().len()
            },
        };
        let again = left > 0 && match event {
            WriteEvent::NotReady => false,
            WriteEvent::Interrupted => true,
            WriteEvent::Wrote(n) => n > 0,
        };
        let ghost after = conn@;
        self.put(id, conn);
        proof {
            let table = old(self)@.connections;
            assert(table.remove(id.0).insert(id.0, after) =~= table.insert(id.0, after));
            assert forall|k: u64| #[trigger] self@.connections.contains_key(k) implies k
                < self@.next_id && self@.connections[k].state.wf() by {
                assert(table.contains_key(k));
            }
        }
        again
    }
}

// ---------------------------------------------------------------------------
// What the routing promises
// ---------------------------------------------------------------------------

/// The kept bytes reach as far as the messages do when none is intercepted.
proof fn lemma_kept_prefix(
    forward: Seq<u8>,
    messages: Seq<ObservedModel>,
    taken: Seq<Option<Interception>>,
    n: int,
)
    requires
        0 < n <= messages.len(),
        taken.len() == messages.len(),
        laid_out(messages, forward, messages[0].offset),
        forall|i: int| 0 <= i < n ==> (#[trigger] taken[i]) is None,
    ensures
        0 <= messages[n - 1].offset + messages[n - 1].length <= forward.len(),
        kept_bytes(forward, messages, taken, n) == forward.take(
            messages[n - 1].offset + messages[n - 1].length,
        ),
    decreases n,
{
    let m = messages[n - 1];
    assert(stands_in(m, forward));
    assert(0 <= m.offset && 0 <= m.length && m.offset + m.length <= forward.len()) by {
        reveal(stands_in);
    }
    if n > 1 {
        lemma_kept_prefix(forward, messages, taken, n - 1);
        assert(messages[n - 1].offset == messages[n - 2].offset + messages[n - 2].length);
    }
    assert(taken[n - 1] is None);
    assert(kept_bytes(forward, messages, taken, n - 1) == forward.take(m.offset)) by {
        reveal_with_fuel(kept_bytes, 2);
    }
    assert(forward.take(m.offset) + message_bytes(forward, m) =~= forward.take(
        m.offset + m.length,
    ));
}

/// A chunk of which the frontend takes no message passes to the bus as it is,
/// while no caret offset is set: nothing is answered and no event is queued.
pub proof fn untouched_chunk_passes(
    c: ConnModel,
    data: Seq<u8>,
    taken: Seq<Option<Interception>>,
    id: ConnId,
)
    requires
        c.state.wf(),
        forall|i: int| 0 <= i < taken.len() ==> (#[trigger] taken[i]) is None,
    ensures
        match feed(c.state, data) {
            Ok((_, forward, messages)) => taken.len() == messages.len() ==> routed(
                c,
                forward,
                messages,
                taken,
                None,
            ) == (ConnModel { upstream_out: c.upstream_out + forward, ..c }) && events_of(
                id,
                taken,
                taken.len() as int,
            ) == Seq::<EventModel>::empty(),
            Err(_) => true,
        },
{
    messages_are_laid_out(c.state, data);
    if let Ok((_, forward, messages)) = feed(c.state, data) {
        if taken.len() == messages.len() {
            let n = messages.len() as int;
            lemma_nothing_taken(c.server_name, messages, taken, id, n);
            assert(c.client_out + Seq::<u8>::empty() =~= c.client_out);
            if n > 0 {
                lemma_kept_prefix(forward, messages, taken, n);
                assert(forward.take(forward.len() as int) =~= forward);
            }
        }
    }
}

proof fn lemma_nothing_taken(
    name: Option<Seq<char>>,
    messages: Seq<ObservedModel>,
    taken: Seq<Option<Interception>>,
    id: ConnId,
    n: int,
)
    requires
        0 <= n <= taken.len(),
        forall|i: int| 0 <= i < taken.len() ==> (#[trigger] taken[i]) is None,
    ensures
        reply_bytes(taken, n) == Seq::<u8>::empty(),
        events_of(id, taken, n) == Seq::<EventModel>::empty(),
        server_name(name, messages, taken, n) == name,
    decreases n,
{
    if n > 0 {
        assert(taken[n - 1] is None);
        lemma_nothing_taken(name, messages, taken, id, n - 1);
    }
}

/// No byte of an intercepted message reaches the bus: when the frontend takes
/// all messages of a chunk, only the bytes in front of the first one do.
pub proof fn intercepted_messages_stay_here(
    forward: Seq<u8>,
    messages: Seq<ObservedModel>,
    taken: Seq<Option<Interception>>,
    offset: Option<(i32, i32)>,
)
    requires
        messages.len() > 0,
        taken.len() == messages.len(),
        forall|i: int| 0 <= i < taken.len() ==> (#[trigger] taken[i]) is Some,
    ensures
        upstream_bytes(forward, messages, taken, offset) == forward.take(messages[0].offset),
{
    lemma_all_taken(forward, messages, taken, messages.len() as int);
}

proof fn lemma_all_taken(
    forward: Seq<u8>,
    messages: Seq<ObservedModel>,
    taken: Seq<Option<Interception>>,
    n: int,
)
    requires
        0 <= n <= taken.len(),
        forall|i: int| 0 <= i < taken.len() ==> (#[trigger] taken[i]) is Some,
    ensures
        kept_bytes(forward, messages, taken, n) == forward.take(messages[0].offset),
        kept_messages(forward, messages, taken, n) == Seq::<ObservedModel>::empty(),
    decreases n,
{
    if n > 0 {
        assert(taken[n - 1] is Some);
        lemma_all_taken(forward, messages, taken, n - 1);
    }
}

/// The messages that a feed completes can be routed.
pub proof fn fed_messages_lie_in(s: ConnectionModel, data: Seq<u8>)
    requires
        s.wf(),
    ensures
        match feed(s, data) {
            Ok((_, forward, messages)) => forall|i: int|
                0 <= i < messages.len() ==> lies_in(
                    #[trigger] messages[i],
                    forward.len() as int,
                ),
            Err(_) => true,
        },
{
    messages_are_laid_out(s, data);
    reveal(stands_in);
}

/// A queued signal is one message: its size is what it announces, and it
/// parses to a signal of the input context with the sender that the client
/// listens to.
pub proof fn queued_signal_parses(
    c: ConnModel,
    ic_path: Seq<char>,
    member: Seq<char>,
    sig: Seq<char>,
    body: Seq<u8>,
)
    requires
        encode_utf8(sig).len() <= u8::MAX,
        body.len() <= u32::MAX,
        fields_bytes(
            signal_fields(ic_path, member, signal_sender(c.server_name), sig),
        ).len() <= u32::MAX,
        16 + fields_bytes(
            signal_fields(ic_path, member, signal_sender(c.server_name), sig),
        ).len() + 7 <= usize::MAX,
    ensures
        ({
            let after = signalled(c, ic_path, member, sig, body);
            let sent = after.client_out.skip(c.client_out.len() as int);
            header_of(sent) == Ok::<HeaderModel, Fault>(
                HeaderModel {
                    endian: Endian::Little,
                    msg_type: MessageType::Signal,
                    flags: 0,
                    body_len: body.len() as u32,
                    serial: after.serial,
                    path: Some(ic_path),
                    interface: Some(INPUT_CONTEXT_IFACE@),
                    member: Some(member),
                    error_name: None,
                    destination: None,
                    sender: Some(signal_sender(c.server_name)),
                    signature: body_signature(sig),
                    reply_serial: None,
                    unix_fds: None,
                },
            )
        }),
{
    let sender = signal_sender(c.server_name);
    let fields = signal_fields(ic_path, member, sender, sig);
    let serial = next_serial(c.serial);
    let bytes = frame(TYPE_SIGNAL, serial, fields_bytes(fields), body);
    let after = signalled(c, ic_path, member, sig, body);
    assert(after.client_out.skip(c.client_out.len() as int) =~= bytes + Seq::<u8>::empty());
    assert forall|i: int| 0 <= i < fields.len() implies encodable(#[trigger] fields[i]) by {
        lemma_text_fits(fields, i);
    }
    let first = fields.take(4);
    assert(fields =~= first + signature_field(sig));
    assert(last_value(first, FIELD_PATH) == Some(first[0].value) && last_value(
        first,
        FIELD_INTERFACE,
    ) == Some(first[1].value) && last_value(first, FIELD_MEMBER) == Some(first[2].value)
        && last_value(first, FIELD_SENDER) == Some(first[3].value) && last_value(
        first,
        FIELD_DESTINATION,
    ) == None::<ValueModel> && last_value(first, FIELD_ERROR_NAME) == None::<ValueModel>
        && last_value(first, FIELD_REPLY_SERIAL) == None::<ValueModel> && last_value(
        first,
        FIELD_SIGNATURE,
    ) == None::<ValueModel> && last_value(first, FIELD_UNIX_FDS) == None::<ValueModel>) by {
        reveal_with_fuel(last_value, 5);
    }
    if sig.len() > 0 {
        assert(fields.drop_last() =~= first);
    } else {
        assert(fields =~= first);
    }
    frame_reads_back(TYPE_SIGNAL, serial, fields, body, seq![]);
}

// ---------------------------------------------------------------------------
// Bus addresses
// ---------------------------------------------------------------------------

/// What introduces a bus address that is a socket path.
pub const UNIX_PATH_PREFIX: &'static str = "unix:path=";

/// A bus address with another scheme than a socket path.
#[derive(Debug, Clone, PartialEq, Eq)]
pub struct UnsupportedScheme {
    pub addr: String,
}

impl UnsupportedScheme {
    /// The message to show.
    pub fn message(&self) -> (r: String)
        ensures
            r@ == "unsupported bus scheme: "@ + self.addr@,
    {
        let mut s = "unsupported bus scheme: ".to_owned();
        s.append(self.addr.as_str());
        s
    }
}

/// The socket path in `unix:path=/run/user/1000/bus[,guid=…]`: what stands
/// between the prefix and the first comma.
pub fn parse_unix_bus_address(addr: &str) -> (r: Result<String, UnsupportedScheme>)
    ensures
        match r {
            Ok(path) => {
                &&& UNIX_PATH_PREFIX@.is_prefix_of(addr@)
                &&& path@ == before_char(addr@.skip(UNIX_PATH_PREFIX@.len() as int), ',')
            },
            Err(e) => !UNIX_PATH_PREFIX@.is_prefix_of(addr@) && e.addr@ == addr@,
        },
{
    let chars = chars_of(addr);
    let prefix = chars_of(UNIX_PATH_PREFIX);
    assert(addr@.skip(0) =~= addr@);
    if starts_with_at(chars.as_slice(), 0, prefix.as_slice()) {
        let end: usize = find_char(chars.as_slice(), prefix.len(), ',');
        Ok(string_of(chars.as_slice(), prefix.len(), end))
    } else {
        Err(UnsupportedScheme { addr: addr.to_owned() })
    }
}

/// The bus address of the socket at `listen_path`.
pub fn format_bus_address(listen_path: &str) -> (r: String)
    ensures
        r@ == UNIX_PATH_PREFIX@ + listen_path@,
{
    let mut s = UNIX_PATH_PREFIX.to_owned();
    s.append(listen_path);
    s
}

/// The address of a socket leads back to the socket, unless its path holds a
/// comma.
pub proof fn address_round_trip(path: Seq<char>)
    requires
        forall|i: int| 0 <= i < path.len() ==> path[i] != ',',
    ensures
        UNIX_PATH_PREFIX@.is_prefix_of(UNIX_PATH_PREFIX@ + path),
        before_char((UNIX_PATH_PREFIX@ + path).skip(UNIX_PATH_PREFIX@.len() as int), ',') == path,
{
    let addr = UNIX_PATH_PREFIX@ + path;
    assert(addr.subrange(0, UNIX_PATH_PREFIX@.len() as int) =~= UNIX_PATH_PREFIX@);
    assert(addr.skip(UNIX_PATH_PREFIX@.len() as int) =~= path);
    lemma_before_char(path, ',', path.len() as int);
    assert(path.take(path.len() as int) =~= path);
}

// ---------------------------------------------------------------------------
// What goes where
// ---------------------------------------------------------------------------

/// How many bytes those of the first `n` messages take that are not intercepted.
pub open spec fn passing_length(
    messages: Seq<ObservedMessage>,
    taken: Seq<Option<Interception>>,
    n: int,
) -> int
    decreases n,
{
    if n <= 0 {
        0
    } else {
        passing_length(messages, taken, n - 1) + if taken[n - 1] is None {
            messages[n - 1].length as int
        } else {
            0
        }
    }
}

proof fn lemma_kept_places(
    forward: Seq<u8>,
    messages: Seq<ObservedMessage>,
    taken: Seq<Option<Interception>>,
    n: int,
)
    requires
        0 <= n <= messages.len(),
        messages.len() > 0,
        taken.len() == messages.len(),
        forall|i: int|
            0 <= i < messages.len() ==> (#[trigger] messages[i]).offset + messages[i].length
                <= forward.len(),
    ensures
        ({
            let kept = kept_bytes(forward, models(messages), taken, n);
            let start = messages[0].offset as int;
            &&& kept.len() == start + passing_length(messages, taken, n)
            &&& 0 <= passing_length(messages, taken, n)
            &&& kept.take(start) == forward.take(start)
            &&& forall|i: int|
                #![trigger messages[i]]
                0 <= i < n && taken[i] is None ==> {
                    let at = start + passing_length(messages, taken, i);
                    &&& start <= at
                    &&& at + messages[i].length <= kept.len()
                    &&& kept.subrange(at, at + messages[i].length) == forward.subrange(
                        messages[i].offset as int,
                        messages[i].offset + messages[i].length,
                    )
                }
        }),
    decreases n,
{
    let all = models(messages);
    let start = messages[0].offset as int;
    assert(all[0] == messages[0]@);
    assert(messages[0].offset + messages[0].length <= forward.len());
    if n == 0 {
        assert(forward.take(start).take(start) =~= forward.take(start));
    } else {
        lemma_kept_places(forward, messages, taken, n - 1);
        let before = kept_bytes(forward, all, taken, n - 1);
        let kept = kept_bytes(forward, all, taken, n);
        let m = messages[n - 1];
        assert(all[n - 1] == m@);
        assert(m.offset + m.length <= forward.len());
        if taken[n - 1] is None {
            assert(kept == before + message_bytes(forward, m@));
            assert(kept.take(start) =~= before.take(start));
            assert(kept.subrange(before.len() as int, before.len() + m.length)
                =~= forward.subrange(m.offset as int, m.offset + m.length));
            assert forall|i: int|
                #![trigger messages[i]]
                0 <= i < n && taken[i] is None implies {
                let at = start + passing_length(messages, taken, i);
                &&& start <= at
                &&& at + messages[i].length <= kept.len()
                &&& kept.subrange(at, at + messages[i].length) == forward.subrange(
                    messages[i].offset as int,
                    messages[i].offset + messages[i].length,
                )
            } by {
                if i < n - 1 {
                    let at = start + passing_length(messages, taken, i);
                    assert(kept.subrange(at, at + messages[i].length) =~= before.subrange(
                        at,
                        at + messages[i].length,
                    ));
                }
            }
        }
    }
}

/// Without an offset, the bus gets what stands in front of the first message and
/// then every message that is not intercepted: each once, whole, as the client
/// sent it, and in order. What waited for it already stays in front.
pub proof fn other_messages_reach_the_bus(
    conn: &mut Connection,
    id: ConnId,
    out: Output,
    taken: &[Option<Interception>],
    events: &mut Vec<FcitxEvent>,
)
    requires
        call_ensures(Connection::route, (conn, id, &out, taken, None, events), ()),
        out.messages@.len() > 0,
        taken@.len() == out.messages@.len(),
        forall|i: int|
            0 <= i < out.messages@.len() ==> (#[trigger] out.messages@[i]).offset
                + out.messages@[i].length <= out.forward@.len(),
    ensures
        ({
            let waited = old(conn)@.upstream_out;
            let sent = final(conn)@.upstream_out;
            let start = waited.len() + out.messages@[0].offset;
            &&& sent.len() == start + passing_length(
                out.messages@,
                taken@,
                out.messages@.len() as int,
            )
            &&& sent.take(waited.len() as int) == waited
            &&& sent.subrange(waited.len() as int, start) == out.forward@.take(
                out.messages@[0].offset as int,
            )
            &&& forall|i: int|
                #![trigger out.messages@[i]]
                0 <= i < out.messages@.len() && taken@[i] is None ==> {
                    let at = start + passing_length(out.messages@, taken@, i);
                    sent.subrange(at, at + out.messages@[i].length) == out.forward@.subrange(
                        out.messages@[i].offset as int,
                        out.messages@[i].offset + out.messages@[i].length,
                    )
                }
        }),
{
    let n = out.messages@.len() as int;
    let waited = old(conn)@.upstream_out;
    let sent = final(conn)@.upstream_out;
    let kept = kept_bytes(out.forward@, models(out.messages@), taken@, n);
    let first = out.messages@[0].offset as int;
    lemma_kept_places(out.forward@, out.messages@, taken@, n);
    assert(models(out.messages@).len() == n);
    assert(sent == waited + kept);
    assert(sent.take(waited.len() as int) =~= waited);
    assert(sent.subrange(waited.len() as int, waited.len() + first) =~= kept.take(first));
    assert forall|i: int|
        #![trigger out.messages@[i]]
        0 <= i < n && taken@[i] is None implies {
        let at = waited.len() + first + passing_length(out.messages@, taken@, i);
        sent.subrange(at, at + out.messages@[i].length) == out.forward@.subrange(
            out.messages@[i].offset as int,
            out.messages@[i].offset + out.messages@[i].length,
        )
    } by {
        let at = first + passing_length(out.messages@, taken@, i);
        assert(sent.subrange(
            waited.len() + at,
            waited.len() + at + out.messages@[i].length,
        ) =~= kept.subrange(at, at + out.messages@[i].length));
    }
}

#[verifier::spinoff_prover]
proof fn lemma_kept_laid_out(
    forward: Seq<u8>,
    messages: Seq<ObservedMessage>,
    taken: Seq<Option<Interception>>,
    n: int,
)
    requires
        0 <= n <= messages.len(),
        messages.len() > 0,
        taken.len() == messages.len(),
        laid_out(models(messages), forward, messages[0].offset as int),
        forall|i: int|
            0 <= i < messages.len() ==> (#[trigger] messages[i]).offset + messages[i].length
                <= forward.len(),
    ensures
        ({
            let kept = kept_bytes(forward, models(messages), taken, n);
            let left = kept_messages(forward, models(messages), taken, n);
            let start = messages[0].offset as int;
            &&& laid_out(left, kept, start)
            &&& left.len() > 0 ==> left.last().offset + left.last().length == kept.len()
            &&& left.len() == 0 ==> kept.len() == start
        }),
    decreases n,
{
    let all = models(messages);
    let start = messages[0].offset as int;
    assert(all[0] == messages[0]@);
    if n > 0 {
        lemma_kept_laid_out(forward, messages, taken, n - 1);
        let before = kept_bytes(forward, all, taken, n - 1);
        let kept = kept_bytes(forward, all, taken, n);
        let left = kept_messages(forward, all, taken, n - 1);
        let m = messages[n - 1];
        assert(all[n - 1] == m@);
        assert(m.offset + m.length <= forward.len());
        if taken[n - 1] is None {
            let moved = ObservedModel { offset: before.len() as int, ..m@ };
            let more = left.push(moved);
            assert(kept_messages(forward, all, taken, n) == more);
            assert(kept == before + message_bytes(forward, m@));
            assert(stands_in(all[n - 1], forward));
            lemma_stands_moved(m@, forward, before, kept);
            assert forall|k: int| 0 <= k < more.len() implies stands_in(
                #[trigger] more[k],
                kept,
            ) by {
                if k < left.len() {
                    assert(more[k] == left[k]);
                    assert(stands_in(left[k], before));
                    lemma_stands_further(left[k], before, kept);
                }
            }
            assert forall|i: int, j: int|
                #![trigger more[i], more[j]]
                0 <= i && j == i + 1 && j < more.len() implies more[j].offset == more[i].offset
                + more[i].length by {
                if j < left.len() {
                    assert(more[i] == left[i] && more[j] == left[j]);
                } else {
                    assert(more[i] == left.last());
                }
            }
        }
    } else {
        assert(messages[0].offset + messages[0].length <= forward.len());
    }
}

proof fn lemma_stands_moved(
    m: ObservedModel,
    forward: Seq<u8>,
    before: Seq<u8>,
    kept: Seq<u8>,
)
    requires
        stands_in(m, forward),
        kept == before + message_bytes(forward, m),
    ensures
        stands_in(ObservedModel { offset: before.len() as int, ..m }, kept),
{
    reveal(stands_in);
    assert(kept.subrange(before.len() as int, before.len() + m.length) =~= message_bytes(
        forward,
        m,
    ));
}

/// A message that is not intercepted is among the kept ones.
proof fn lemma_kept_index(
    forward: Seq<u8>,
    messages: Seq<ObservedMessage>,
    taken: Seq<Option<Interception>>,
    n: int,
    i: int,
)
    requires
        0 <= i < n <= messages.len(),
        taken.len() == messages.len(),
        taken[i] is None,
        forall|i: int|
            0 <= i < messages.len() ==> (#[trigger] messages[i]).offset + messages[i].length
                <= forward.len(),
    ensures
        kept_messages(forward, models(messages), taken, n).contains(
            ObservedModel {
                offset: messages[0].offset + passing_length(messages, taken, i),
                ..messages[i]@
            },
        ),
    decreases n,
{
    let all = models(messages);
    let left = kept_messages(forward, all, taken, n - 1);
    let wanted = ObservedModel {
        offset: messages[0].offset + passing_length(messages, taken, i),
        ..messages[i]@
    };
    assert(all[n - 1] == messages[n - 1]@);
    if i < n - 1 {
        lemma_kept_index(forward, messages, taken, n - 1, i);
        if taken[n - 1] is None {
            let k = left.index_of(wanted);
            let more = kept_messages(forward, all, taken, n);
            assert(more[k] == wanted);
        }
    } else {
        lemma_kept_places(forward, messages, taken, n - 1);
        let more = kept_messages(forward, all, taken, n);
        assert(more[left.len() as int] == wanted);
    }
}

/// A message that stands in some bytes stands in more.
proof fn lemma_stands_further(m: ObservedModel, before: Seq<u8>, after: Seq<u8>)
    requires
        stands_in(m, before),
        before.len() <= after.len(),
        forall|i: int| 0 <= i < before.len() ==> after[i] == before[i],
    ensures
        stands_in(m, after),
{
    reveal(stands_in);
    assert(after.subrange(m.offset, m.offset + m.length) =~= before.subrange(
        m.offset,
        m.offset + m.length,
    ));
}

/// With an offset, the same messages reach the bus at the same places, and each
/// is as the client sent it but for its caret, which is moved. `before` is the
/// connection that `data` came in on.
#[verifier::spinoff_prover]
#[verifier::rlimit(40)]
pub proof fn other_messages_reach_the_bus_with_their_carets_moved(
    before: ConnectionModel,
    data: Seq<u8>,
    conn: &mut Connection,
    id: ConnId,
    out: Output,
    taken: &[Option<Interception>],
    delta: (i32, i32),
    events: &mut Vec<FcitxEvent>,
)
    requires
        call_ensures(Connection::route, (conn, id, &out, taken, Some(delta), events), ()),
        before.wf(),
        feed(before, data) matches Ok((_, forward, messages)) && forward == out.forward@
            && messages == models(out.messages@),
        out.messages@.len() > 0,
        taken@.len() == out.messages@.len(),
    ensures
        ({
            let waited = old(conn)@.upstream_out;
            let sent = final(conn)@.upstream_out;
            let start = waited.len() + out.messages@[0].offset;
            &&& sent.len() == start + passing_length(
                out.messages@,
                taken@,
                out.messages@.len() as int,
            )
            &&& sent.take(waited.len() as int) == waited
            &&& sent.subrange(waited.len() as int, start) == out.forward@.take(
                out.messages@[0].offset as int,
            )
            &&& forall|i: int|
                #![trigger out.messages@[i]]
                0 <= i < out.messages@.len() && taken@[i] is None ==> {
                    let at = start + passing_length(out.messages@, taken@, i);
                    caret_moved(
                        out.forward@.subrange(
                            out.messages@[i].offset as int,
                            out.messages@[i].offset + out.messages@[i].length,
                        ),
                        out.messages@[i].header@,
                        delta,
                        sent.subrange(at, at + out.messages@[i].length),
                    )
                }
        }),
{
    let n = out.messages@.len() as int;
    let waited = old(conn)@.upstream_out;
    let sent = final(conn)@.upstream_out;
    let all = models(out.messages@);
    let kept = kept_bytes(out.forward@, all, taken@, n);
    let left = kept_messages(out.forward@, all, taken@, n);
    let moved = rewrite_all(kept, left, delta);
    let first = out.messages@[0].offset as int;
    messages_are_laid_out(before, data);
    assert(all.len() == n);
    assert(all[0] == out.messages@[0]@);
    assert forall|i: int| 0 <= i < n implies (#[trigger] out.messages@[i]).offset
        + out.messages@[i].length <= out.forward@.len() by {
        assert(all[i] == out.messages@[i]@);
        assert(stands_in(all[i], out.forward@));
        reveal(stands_in);
    }
    lemma_kept_places(out.forward@, out.messages@, taken@, n);
    lemma_kept_laid_out(out.forward@, out.messages@, taken@, n);
    if left.len() > 0 {
        assert(left[0].offset == first);
        lemma_laid_out_moved(kept, left, delta);
    }
    assert(moved.len() == kept.len() && moved.take(first) == kept.take(first));
    assert(sent == waited + moved);
    assert(sent.take(waited.len() as int) =~= waited);
    assert(sent.subrange(waited.len() as int, waited.len() + first) =~= moved.take(first));
    assert forall|i: int|
        #![trigger out.messages@[i]]
        0 <= i < n && taken@[i] is None implies {
        let at = waited.len() + first + passing_length(out.messages@, taken@, i);
        caret_moved(
            out.forward@.subrange(
                out.messages@[i].offset as int,
                out.messages@[i].offset + out.messages@[i].length,
            ),
            out.messages@[i].header@,
            delta,
            sent.subrange(at, at + out.messages@[i].length),
        )
    } by {
        let at = first + passing_length(out.messages@, taken@, i);
        let moved_message = ObservedModel { offset: at, ..out.messages@[i]@ };
        lemma_kept_index(out.forward@, out.messages@, taken@, n, i);
        let k = left.index_of(moved_message);
        assert(left[k] == moved_message);
        assert(sent.subrange(
            waited.len() + at,
            waited.len() + at + out.messages@[i].length,
        ) =~= bytes_of(moved, left[k]));
        assert(bytes_of(kept, left[k]) =~= out.forward@.subrange(
            out.messages@[i].offset as int,
            out.messages@[i].offset + out.messages@[i].length,
        ));
    }
}

/// Bytes that hold no message, such as those of the handshake, reach the bus as
/// they are.
pub proof fn bytes_without_messages_pass(
    conn: &mut Connection,
    id: ConnId,
    out: Output,
    taken: &[Option<Interception>],
    offset: Option<(i32, i32)>,
    events: &mut Vec<FcitxEvent>,
)
    requires
        call_ensures(Connection::route, (conn, id, &out, taken, offset, events), ()),
        out.messages@.len() == 0,
        taken@.len() == 0,
    ensures
        final(conn)@.upstream_out == old(conn)@.upstream_out + out.forward@,
        final(conn)@.client_out == old(conn)@.client_out,
        event_models(final(events)@) == event_models(old(events)@),
{
    assert(models(out.messages@).len() == 0);
    assert(old(conn)@.client_out + reply_bytes(taken@, 0) =~= old(conn)@.client_out);
    assert(event_models(old(events)@) + events_of(id, taken@, 0) =~= event_models(old(events)@));
}

/// The client gets the reply to each of its calls that is intercepted, whole and
/// in order, behind what waits for it already, and nothing else. Nothing else of
/// the connection changes but the name that the frontend goes by.
pub proof fn intercepted_calls_are_answered(
    conn: &mut Connection,
    id: ConnId,
    out: Output,
    taken: &[Option<Interception>],
    offset: Option<(i32, i32)>,
    events: &mut Vec<FcitxEvent>,
)
    requires
        call_ensures(Connection::route, (conn, id, &out, taken, offset, events), ()),
        taken@.len() == out.messages@.len(),
    ensures
        final(conn)@.client_out == old(conn)@.client_out + Seq::new(
            taken@.len(),
            |i: int|
                match taken@[i] {
                    Some(t) => t.reply@,
                    None => Seq::<u8>::empty(),
                },
        ).flatten(),
        final(conn)@.state == old(conn)@.state,
        final(conn)@.serial == old(conn)@.serial,
{
    assert(models(out.messages@).len() == taken@.len());
    lemma_replies(taken@, taken@.len() as int);
}

proof fn lemma_replies(taken: Seq<Option<Interception>>, n: int)
    requires
        0 <= n <= taken.len(),
    ensures
        reply_bytes(taken, n) == Seq::new(
            n as nat,
            |i: int|
                match taken[i] {
                    Some(t) => t.reply@,
                    None => Seq::<u8>::empty(),
                },
        ).flatten(),
    decreases n,
{
    let reply = |i: int|
        match taken[i] {
            Some(t) => t.reply@,
            None => Seq::<u8>::empty(),
        };
    let all = Seq::new(n as nat, reply);
    all.lemma_flatten_and_flatten_alt_are_equivalent();
    if n > 0 {
        let rest = Seq::new((n - 1) as nat, reply);
        lemma_replies(taken, n - 1);
        rest.lemma_flatten_and_flatten_alt_are_equivalent();
        assert(all.drop_last() =~= rest);
        assert(reply_bytes(taken, n) =~= rest.flatten() + reply(n - 1));
    } else {
        assert(all =~= Seq::<Seq<u8>>::empty());
    }
}

/// Routing a chunk in two parts tells the events of the first and then those of
/// the second, whatever becomes of the bytes.
pub proof fn events_are_told_in_order(
    first: &[Option<Interception>],
    second: &[Option<Interception>],
    both: &[Option<Interception>],
    id: ConnId,
    conns: (&mut Connection, &mut Connection, &mut Connection),
    outs: (Output, Output, Output),
    offset: Option<(i32, i32)>,
    one: &mut Vec<FcitxEvent>,
    two: &mut Vec<FcitxEvent>,
    all: &mut Vec<FcitxEvent>,
)
    requires
        both@ == first@ + second@,
        call_ensures(Connection::route, (conns.0, id, &outs.0, first, offset, one), ()),
        call_ensures(Connection::route, (conns.1, id, &outs.1, second, offset, two), ()),
        call_ensures(Connection::route, (conns.2, id, &outs.2, both, offset, all), ()),
        old(one)@.len() == 0,
        old(two)@.len() == 0,
        old(all)@.len() == 0,
    ensures
        event_models(final(all)@) == event_models(final(one)@) + event_models(final(two)@),
{
    lemma_events_split(id, first@, second@, second@.len() as int);
    let none = Seq::<EventModel>::empty();
    assert(event_models(old(one)@) =~= none);
    assert(event_models(old(two)@) =~= none);
    assert(event_models(old(all)@) =~= none);
    assert(none + events_of(id, first@, first@.len() as int) =~= events_of(
        id,
        first@,
        first@.len() as int,
    ));
    assert(none + events_of(id, second@, second@.len() as int) =~= events_of(
        id,
        second@,
        second@.len() as int,
    ));
    assert(none + events_of(id, both@, both@.len() as int) =~= events_of(
        id,
        both@,
        both@.len() as int,
    ));
}

proof fn lemma_events_split(
    id: ConnId,
    first: Seq<Option<Interception>>,
    second: Seq<Option<Interception>>,
    n: int,
)
    requires
        0 <= n <= second.len(),
    ensures
        events_of(id, first + second, first.len() + n) == events_of(
            id,
            first,
            first.len() as int,
        ) + events_of(id, second, n),
    decreases n,
{
    let both = first + second;
    if n == 0 {
        lemma_events_prefix(id, first, both, first.len() as int);
        assert(events_of(id, first, first.len() as int) + events_of(id, second, 0) =~= events_of(
            id,
            first,
            first.len() as int,
        ));
    } else {
        lemma_events_split(id, first, second, n - 1);
        assert(both[first.len() + n - 1] == second[n - 1]);
        let a = events_of(id, first, first.len() as int);
        let b = events_of(id, second, n - 1);
        if let Some(t) = second[n - 1] {
            if let Some(e) = event_of(id, t.method, t.rect) {
                assert((a + b).push(e) =~= a + b.push(e));
            }
        }
    }
}

proof fn lemma_events_prefix(
    id: ConnId,
    a: Seq<Option<Interception>>,
    b: Seq<Option<Interception>>,
    n: int,
)
    requires
        0 <= n <= a.len() <= b.len(),
        forall|i: int| 0 <= i < a.len() ==> a[i] == b[i],
    ensures
        events_of(id, a, n) == events_of(id, b, n),
    decreases n,
{
    if n > 0 {
        lemma_events_prefix(id, a, b, n - 1);
    }
}

/// A single message leads to an event only where it is intercepted, and then to
/// the one of its call.
pub proof fn one_call_tells_one_event(
    taken: &[Option<Interception>],
    conn: &mut Connection,
    id: ConnId,
    out: Output,
    offset: Option<(i32, i32)>,
    events: &mut Vec<FcitxEvent>,
    alone: &mut Vec<FcitxEvent>,
    method: FcitxMethod,
)
    requires
        taken@.len() == 1,
        call_ensures(Connection::route, (conn, id, &out, taken, offset, events), ()),
        taken@[0] matches Some(t) ==> method == t.method && call_ensures(
            emit_fcitx_event,
            (alone, id, &method, t.rect),
            (),
        ),
        old(alone)@ == old(events)@,
    ensures
        taken@[0] is None ==> event_models(final(events)@) == event_models(old(events)@),
        taken@[0] is Some ==> event_models(final(events)@) == event_models(final(alone)@),
{
    let queue = event_models(old(events)@);
    reveal_with_fuel(events_of, 2);
    match taken@[0] {
        None => {
            assert(queue + Seq::<EventModel>::empty() =~= queue);
        },
        Some(t) => match event_of(id, t.method, t.rect) {
            Some(e) => {
                assert(queue + Seq::<EventModel>::empty().push(e) =~= queue.push(e));
            },
            None => {
                assert(queue + Seq::<EventModel>::empty() =~= queue);
            },
        },
    }
}

/// Of the calls to the frontend, those that move the focus, tell the caret or
/// destroy an input context lead to one event each, for that connection and that
/// context; any other leads to none. A context that gains the focus brings the
/// caret that it is known to have; a location has no size.
pub proof fn calls_tell_what_they_change(
    events: &mut Vec<FcitxEvent>,
    conn: ConnId,
    method: FcitxMethod,
    rect: Option<[i32; 4]>,
)
    requires
        call_ensures(emit_fcitx_event, (events, conn, &method, rect), ()),
    ensures
        ({
            let before = event_models(old(events)@);
            let after = event_models(final(events)@);
            let told = after.last();
            &&& after.len() == before.len() + if method is Other {
                0nat
            } else {
                1nat
            }
            &&& forall|i: int| 0 <= i < before.len() ==> after[i] == before[i]
            &&& method matches FcitxMethod::FocusIn { ic_path } ==> {
                &&& told is FocusChanged && told->FocusChanged_conn == conn
                &&& told->FocusChanged_ic_path == ic_path@ && told->FocusChanged_focused
                &&& rect is None ==> told->FocusChanged_rect is None
                &&& rect matches Some(r) ==> told->FocusChanged_rect == Some(r@)
            }
            &&& method matches FcitxMethod::FocusOut { ic_path } ==> {
                &&& told is FocusChanged && told->FocusChanged_conn == conn
                &&& told->FocusChanged_ic_path == ic_path@ && !told->FocusChanged_focused
                &&& told->FocusChanged_rect is None
            }
            &&& method matches FcitxMethod::SetCursorRect { ic_path, x, y, w, h } ==> told == (
            EventModel::CursorRect { conn, ic_path: ic_path@, rect: seq![x, y, w, h] })
            &&& method matches FcitxMethod::SetCursorRectV2 { ic_path, x, y, w, h } ==> told == (
            EventModel::CursorRect { conn, ic_path: ic_path@, rect: seq![x, y, w, h] })
            &&& method matches FcitxMethod::SetCursorLocation { ic_path, x, y } ==> told == (
            EventModel::CursorRect { conn, ic_path: ic_path@, rect: seq![x, y, 0, 0] })
            &&& method matches FcitxMethod::DestroyIC { ic_path } ==> told == (
            EventModel::IcDestroyed { conn, ic_path: ic_path@ })
        }),
{
}

/// The destination of an intercepted message is a unique name.
pub open spec fn names_the_frontend(
    messages: Seq<ObservedMessage>,
    taken: Seq<Option<Interception>>,
    i: int,
) -> bool {
    &&& taken[i] is Some
    &&& messages[i].header.destination is Some
    &&& messages[i].header.destination->0@.len() > 0
    &&& messages[i].header.destination->0@[0] == ':'
}

/// A client that has resolved the frontend to a unique name only listens to that
/// name. The last one that it sent an intercepted call to, a name that starts with
/// a colon, is the sender of the next signal; where it sent none, the sender
/// stays.
pub proof fn signals_come_from_where_the_client_called(
    conn: &mut Connection,
    id: ConnId,
    out: Output,
    taken: &[Option<Interception>],
    offset: Option<(i32, i32)>,
    events: &mut Vec<FcitxEvent>,
    last: int,
)
    requires
        call_ensures(Connection::route, (conn, id, &out, taken, offset, events), ()),
        taken@.len() == out.messages@.len(),
        -1 <= last < taken@.len(),
        last >= 0 ==> names_the_frontend(out.messages@, taken@, last),
        forall|i: int|
            last < i < taken@.len() ==> !(#[trigger] names_the_frontend(
                out.messages@,
                taken@,
                i,
            )),
    ensures
        last == -1 ==> final(conn)@.server_name == old(conn)@.server_name,
        last >= 0 ==> final(conn)@.server_name == Some(
            out.messages@[last].header.destination->0@,
        ),
{
    assert(models(out.messages@).len() == taken@.len());
    lemma_server_name(
        old(conn)@.server_name,
        out.messages@,
        taken@,
        last,
        taken@.len() as int,
    );
}

proof fn lemma_server_name(
    before: Option<Seq<char>>,
    messages: Seq<ObservedMessage>,
    taken: Seq<Option<Interception>>,
    last: int,
    n: int,
)
    requires
        taken.len() == messages.len(),
        -1 <= last < n <= taken.len() || last == -1 && n == 0,
        last >= 0 ==> names_the_frontend(messages, taken, last),
        forall|i: int| last < i < n ==> !(#[trigger] names_the_frontend(messages, taken, i)),
    ensures
        server_name(before, models(messages), taken, n) == if last >= 0 {
            Some(messages[last].header.destination->0@)
        } else {
            before
        },
    decreases n,
{
    if n > 0 {
        let m = models(messages)[n - 1];
        assert(m == messages[n - 1]@);
        assert(m.header.destination == text_of(messages[n - 1].header.destination));
        if last < n - 1 {
            assert(!names_the_frontend(messages, taken, n - 1));
            lemma_server_name(before, messages, taken, last, n - 1);
        }
    }
}

/// A signal is queued behind what waits for the client. It is one message: a
/// signal of the input context, with the member and the body that were given,
/// a serial of its own, and, for a sender, the unique name that the client knows
/// the frontend by or, without one, the name that fcitx owns.
pub proof fn signals_name_their_sender(
    conn: &mut Connection,
    ic_path: &str,
    member: &str,
    body: Body,
    sender: Seq<char>,
)
    requires
        call_ensures(Connection::signal, (conn, ic_path, member, body), ()),
        old(conn)@.server_name matches Some(name) ==> sender == name,
        old(conn)@.server_name is None ==> sender == "org.fcitx.Fcitx5"@,
        encode_utf8(body.signature@).len() <= u8::MAX,
        body.bytes@.len() <= u32::MAX,
        fields_bytes(signal_fields(ic_path@, member@, sender, body.signature@)).len() <= u32::MAX,
        16 + fields_bytes(signal_fields(ic_path@, member@, sender, body.signature@)).len() + 7
            <= usize::MAX,
    ensures
        ({
            let waited = old(conn)@.client_out;
            let queued = final(conn)@.client_out;
            let sent = queued.skip(waited.len() as int);
            &&& queued.len() >= waited.len() + body.bytes@.len()
            &&& queued.take(waited.len() as int) == waited
            &&& sent.skip(sent.len() - body.bytes@.len()) == body.bytes@
            &&& header_of(sent) matches Ok(h) && {
                &&& h.msg_type == MessageType::Signal
                &&& h.path == Some(ic_path@)
                &&& h.interface == Some("org.fcitx.Fcitx.InputContext1"@)
                &&& h.member == Some(member@)
                &&& h.sender == Some(sender)
                &&& h.destination is None
                &&& h.body_len == body.bytes@.len()
                &&& h.serial == final(conn)@.serial
                &&& h.signature == if body.signature@.len() > 0 {
                    Some(body.signature@)
                } else {
                    None
                }
            }
        }),
        final(conn)@.serial != 0,
        old(conn)@.serial < u32::MAX ==> final(conn)@.serial == old(conn)@.serial + 1,
        final(conn)@.upstream_out == old(conn)@.upstream_out,
        final(conn)@.server_name == old(conn)@.server_name,
        final(conn)@.state == old(conn)@.state,
{
    let c = old(conn)@;
    queued_signal_parses(c, ic_path@, member@, body.signature@, body.bytes@);
    let after = final(conn)@;
    let bytes = frame(
        TYPE_SIGNAL,
        next_serial(c.serial),
        fields_bytes(signal_fields(ic_path@, member@, sender, body.signature@)),
        body.bytes@,
    );
    assert(after.client_out == c.client_out + bytes);
    assert(after.client_out.take(c.client_out.len() as int) =~= c.client_out);
    assert(after.client_out.skip(c.client_out.len() as int) =~= bytes);
    assert(bytes.skip(bytes.len() - body.bytes@.len()) =~= body.bytes@);
}

/// Committing text queues the signal `CommitString` with the text, and pre-edit
/// text the signal `UpdateFormattedPreedit` with the body that packs it.
pub proof fn texts_are_sent_as_signals(
    conn: &mut Connection,
    ic_path: &str,
    text: &str,
    body: Body,
    same: &mut Connection,
    shown: &mut Connection,
    edited: &mut Connection,
)
    requires
        call_ensures(Connection::commit_string, (conn, ic_path, text), ()),
        call_ensures(Connection::signal, (same, ic_path, "CommitString", body), ()),
        call_ensures(Connection::update_preedit, (edited, ic_path, body), ()),
        call_ensures(Connection::signal, (shown, ic_path, "UpdateFormattedPreedit", body), ()),
        old(same)@ == old(conn)@,
        old(shown)@ == old(edited)@,
    ensures
        final(edited)@ == final(shown)@,
        body.signature@ == "s"@ && body.bytes@ == string_bytes(0, text@) ==> final(conn)@
            == final(same)@,
{
    reveal_strlit("s");
    assert("s"@ =~= seq!['s']);
}

/// Serials count up from one to the next and never are zero.
pub proof fn serials_count_up(counter: &mut u32, r: u32)
    requires
        call_ensures(next_nonzero, (counter,), r),
    ensures
        *final(counter) == r,
        r != 0,
        *old(counter) < u32::MAX ==> r == *old(counter) + 1,
        *old(counter) == u32::MAX ==> r == 1,
{
}

/// All that a broker holds but connection `id` and the queued events is as it
/// was.
pub open spec fn only_touches(before: BrokerModel, after: BrokerModel, id: ConnId) -> bool {
    &&& after.offset == before.offset
    &&& after.next_id == before.next_id
    &&& forall|k: u64| #[trigger]
        after.connections.contains_key(k) <==> before.connections.contains_key(k)
    &&& forall|k: u64|
        k != id.0 && #[trigger] before.connections.contains_key(k) ==> after.connections[k]
            == before.connections[k]
}

/// The second half of a pump routes the chunk on its own connection, with the
/// offset in force, and queues the events; other connections are left alone. A
/// connection that is not known counts as closed.
pub proof fn pumps_route_on_their_connection(
    broker: &mut DbusBroker,
    id: ConnId,
    out: Output,
    taken: &[Option<Interception>],
    r: PumpOutcome,
    conn: &mut Connection,
    events: &mut Vec<FcitxEvent>,
)
    requires
        call_ensures(DbusBroker::finish_client_pump, (broker, id, &out, taken), r),
        call_ensures(
            Connection::route,
            (conn, id, &out, taken, old(broker)@.offset, events),
            (),
        ),
        old(broker)@.connections.contains_key(id.0) ==> old(conn)@
            == old(broker)@.connections[id.0],
        event_models(old(events)@) == old(broker)@.events,
    ensures
        old(broker)@.connections.contains_key(id.0) ==> {
            &&& r == PumpOutcome::Active
            &&& final(broker)@.connections[id.0] == final(conn)@
            &&& final(broker)@.events == event_models(final(events)@)
            &&& only_touches(old(broker)@, final(broker)@, id)
        },
        !old(broker)@.connections.contains_key(id.0) ==> r == PumpOutcome::PeerClosed
            && final(broker)@ == old(broker)@,
{
}

/// What a client sends changes nothing but what its connection remembers, until
/// it is routed. The end of its stream, and a connection that is not known, close
/// the pair; nothing to read does not.
pub proof fn reading_from_a_client(
    broker: &mut DbusBroker,
    id: ConnId,
    read: ReadEvent,
    r: ClientPump,
)
    requires
        call_ensures(DbusBroker::pump_client_to_upstream, (broker, id, read), r),
        old(broker)@.wf(),
    ensures
        ({
            let known = old(broker)@.connections.contains_key(id.0);
            &&& !known || read is Closed ==> r == ClientPump::Done(PumpOutcome::PeerClosed)
                && final(broker)@ == old(broker)@
            &&& known && read is NotReady ==> r == ClientPump::Done(PumpOutcome::Active)
                && final(broker)@ == old(broker)@
            &&& known && read is Data ==> r is Inspect || r is Malformed
            &&& r is Malformed ==> final(broker)@ == old(broker)@
            &&& r matches ClientPump::Inspect(out) ==> {
                let before = old(broker)@.connections[id.0];
                let after = final(broker)@.connections[id.0];
                &&& known && read is Data
                &&& out.forward@ + after.state.pending == before.state.pending + read->Data_0@
                &&& after.client_out == before.client_out
                &&& after.upstream_out == before.upstream_out
                &&& after.serial == before.serial && after.server_name == before.server_name
                &&& final(broker)@.events == old(broker)@.events
                &&& only_touches(old(broker)@, final(broker)@, id)
            }
        }),
{
    if old(broker)@.connections.contains_key(id.0) {
        if let ReadEvent::Data(data) = read {
            let c = old(broker)@.connections[id.0];
            assert(c.state.wf());
            crate::broker::laws::bytes_are_conserved(c.state, data@);
        }
    }
}

/// What the bus sends reaches the client as it is, behind what waits for it, and
/// touches nothing else.
pub proof fn reading_from_the_bus(
    broker: &mut DbusBroker,
    id: ConnId,
    read: ReadEvent,
    r: PumpOutcome,
)
    requires
        call_ensures(DbusBroker::pump_upstream_to_client, (broker, id, read), r),
    ensures
        ({
            let known = old(broker)@.connections.contains_key(id.0);
            &&& r == PumpOutcome::PeerClosed <==> !known || read is Closed
            &&& !known || !(read is Data) ==> final(broker)@ == old(broker)@
            &&& known && read is Data ==> {
                let before = old(broker)@.connections[id.0];
                let after = final(broker)@.connections[id.0];
                &&& after.client_out == before.client_out + read->Data_0@
                &&& after.upstream_out == before.upstream_out
                &&& after.state == before.state
                &&& after.serial == before.serial && after.server_name == before.server_name
                &&& final(broker)@.events == old(broker)@.events
                &&& only_touches(old(broker)@, final(broker)@, id)
            }
        }),
{
}

/// Committed and pre-edit text goes to the connection that it is for, as it would
/// on that connection alone; for one that is not known nothing happens.
pub proof fn texts_go_to_their_client(
    broker: &mut DbusBroker,
    other: &mut DbusBroker,
    id: ConnId,
    ic_path: &str,
    text: &str,
    body: Body,
    conn: &mut Connection,
    edited: &mut Connection,
)
    requires
        call_ensures(DbusBroker::emit_commit_string, (broker, id, ic_path, text), ()),
        call_ensures(DbusBroker::emit_preedit, (other, id, ic_path, body), ()),
        call_ensures(Connection::commit_string, (conn, ic_path, text), ()),
        call_ensures(Connection::update_preedit, (edited, ic_path, body), ()),
        old(broker)@.connections.contains_key(id.0) ==> old(conn)@
            == old(broker)@.connections[id.0],
        old(other)@.connections.contains_key(id.0) ==> old(edited)@
            == old(other)@.connections[id.0],
    ensures
        old(broker)@.connections.contains_key(id.0) ==> {
            &&& final(broker)@.connections[id.0] == final(conn)@
            &&& final(broker)@.events == old(broker)@.events
            &&& only_touches(old(broker)@, final(broker)@, id)
        },
        !old(broker)@.connections.contains_key(id.0) ==> final(broker)@ == old(broker)@,
        old(other)@.connections.contains_key(id.0) ==> {
            &&& final(other)@.connections[id.0] == final(edited)@
            &&& final(other)@.events == old(other)@.events
            &&& only_touches(old(other)@, final(other)@, id)
        },
        !old(other)@.connections.contains_key(id.0) ==> final(other)@ == old(other)@,
{
}

/// A client that is accepted gets a connection of its own, on which nothing has
/// happened, under a number that no connection has or had. The others stay.
pub proof fn clients_get_their_own_connection(broker: &mut DbusBroker, r: ConnId)
    requires
        call_ensures(DbusBroker::accept_one, (broker,), r),
        old(broker)@.wf(),
        old(broker)@.next_id < u64::MAX,
    ensures
        !old(broker)@.connections.contains_key(r.0),
        r.0 >= old(broker)@.next_id && r.0 < final(broker)@.next_id,
        final(broker)@.connections.contains_key(r.0),
        ({
            let c = final(broker)@.connections[r.0];
            &&& !c.state.authed && c.state.seen.len() == 0 && c.state.pending.len() == 0
            &&& c.client_out.len() == 0 && c.upstream_out.len() == 0
            &&& c.serial == 0 && c.server_name is None
        }),
        forall|k: u64| #[trigger]
            old(broker)@.connections.contains_key(k) ==> final(broker)@.connections.contains_key(k)
                && final(broker)@.connections[k] == old(broker)@.connections[k],
        forall|k: u64| #[trigger]
            final(broker)@.connections.contains_key(k) ==> k == r.0
                || old(broker)@.connections.contains_key(k),
        final(broker)@.offset == old(broker)@.offset,
        final(broker)@.events == old(broker)@.events,
{
}

/// Dropping a connection drops that one alone; draining hands out every event
/// once, in order; the offset is the one that was set last.
pub proof fn brokers_keep_their_books(
    removing: &mut DbusBroker,
    id: ConnId,
    draining: &mut DbusBroker,
    drained: Vec<FcitxEvent>,
    moving: &mut DbusBroker,
    offset: Option<(i32, i32)>,
    reading: DbusBroker,
    read: Option<(i32, i32)>,
)
    requires
        call_ensures(DbusBroker::remove_connection, (removing, id), ()),
        call_ensures(DbusBroker::drain_events, (draining,), drained),
        call_ensures(DbusBroker::set_offset, (moving, offset), ()),
        call_ensures(DbusBroker::offset, (&reading,), read),
        reading@ == final(moving)@,
    ensures
        !final(removing)@.connections.contains_key(id.0),
        forall|k: u64|
            k != id.0 ==> (#[trigger] final(removing)@.connections.contains_key(k)
                <==> old(removing)@.connections.contains_key(k)),
        forall|k: u64| #[trigger]
            final(removing)@.connections.contains_key(k) ==> final(removing)@.connections[k]
                == old(removing)@.connections[k],
        final(removing)@.events == old(removing)@.events,
        event_models(drained@) == old(draining)@.events,
        final(draining)@.events.len() == 0,
        final(draining)@.connections == old(draining)@.connections,
        read == offset,
        final(moving)@.connections == old(moving)@.connections,
        final(moving)@.events == old(moving)@.events,
{
}

/// What was written leaves the queue from the front and the rest waits; the other
/// side's queue is left alone. Writing goes on while bytes wait and the socket
/// takes them, and after an interruption, but not once it takes nothing.
pub proof fn written_bytes_leave_the_queue(
    broker: &mut DbusBroker,
    id: ConnId,
    side: Side,
    event: WriteEvent,
    again: bool,
    waiting: Vec<u8>,
    left: Vec<u8>,
    after: DbusBroker,
    before: DbusBroker,
)
    requires
        call_ensures(DbusBroker::after_write, (broker, id, side, event), again),
        call_ensures(DbusBroker::waiting, (&before, id, side), waiting),
        call_ensures(DbusBroker::waiting, (&after, id, side), left),
        before@ == old(broker)@,
        after@ == final(broker)@,
        event matches WriteEvent::Wrote(n) ==> n <= waiting@.len(),
    ensures
        !before@.connections.contains_key(id.0) ==> waiting@.len() == 0 && !again && after@
            == before@,
        before@.connections.contains_key(id.0) ==> {
            let c = before@.connections[id.0];
            let d = after@.connections[id.0];
            &&& side == Side::Client ==> waiting@ == c.client_out && left@ == d.client_out
            &&& side == Side::Upstream ==> waiting@ == c.upstream_out && left@ == d.upstream_out
            &&& side == Side::Client ==> d.upstream_out == c.upstream_out
            &&& side == Side::Upstream ==> d.client_out == c.client_out
            &&& event matches WriteEvent::Wrote(n) ==> waiting@ == waiting@.take(n as int) + left@
            &&& event matches WriteEvent::Wrote(n) ==> (again <==> n > 0 && left@.len() > 0)
            &&& event == WriteEvent::NotReady ==> left@ == waiting@ && !again
            &&& event == WriteEvent::Interrupted ==> left@ == waiting@ && (again <==> left@.len()
                > 0)
            &&& d.state == c.state && d.serial == c.serial && d.server_name == c.server_name
            &&& after@.events == before@.events
            &&& only_touches(before@, after@, id)
        },
{
    if before@.connections.contains_key(id.0) {
        let queue = queue_of(before@.connections[id.0], side);
        assert(queue.take(event.taken()) + queue.skip(event.taken()) =~= queue);
        assert(queue.skip(0) =~= queue);
    }
}

/// The path in a bus address is what stands between `unix:path=` and the first
/// comma; an address that starts otherwise is refused and named.
pub proof fn addresses_name_a_path(
    addr: &str,
    r: Result<String, UnsupportedScheme>,
    listen_path: &str,
    formatted: String,
)
    requires
        call_ensures(parse_unix_bus_address, (addr,), r),
        call_ensures(format_bus_address, (listen_path,), formatted),
    ensures
        r is Ok <==> "unix:path="@.is_prefix_of(addr@),
        r matches Ok(path) ==> {
            let rest = addr@.skip("unix:path="@.len() as int);
            &&& path@.is_prefix_of(rest)
            &&& !path@.contains(',')
            &&& path@.len() < rest.len() ==> rest[path@.len() as int] == ','
        },
        r matches Err(e) ==> e.addr@ == addr@,
        formatted@ == "unix:path="@ + listen_path@,
{
    if let Ok(path) = r {
        crate::text::lemma_before_char_cut(addr@.skip("unix:path="@.len() as int), ',');
    }
}

/// A signal that follows a chunk comes from the unique name that the client last
/// sent an intercepted call to in that chunk. Calls to a well-known name do not
/// count: where there is no call to a unique name, the signal comes from where it
/// would have come from before.
pub proof fn the_next_signal_comes_from_where_the_client_called(
    conn: &mut Connection,
    id: ConnId,
    out: Output,
    taken: &[Option<Interception>],
    offset: Option<(i32, i32)>,
    events: &mut Vec<FcitxEvent>,
    last: int,
    next: &mut Connection,
    ic_path: &str,
    member: &str,
    body: Body,
    sender: Seq<char>,
)
    requires
        call_ensures(Connection::route, (conn, id, &out, taken, offset, events), ()),
        taken@.len() == out.messages@.len(),
        -1 <= last < taken@.len(),
        last >= 0 ==> names_the_frontend(out.messages@, taken@, last),
        forall|i: int|
            last < i < taken@.len() ==> !(#[trigger] names_the_frontend(
                out.messages@,
                taken@,
                i,
            )),
        old(next)@ == final(conn)@,
        call_ensures(Connection::signal, (next, ic_path, member, body), ()),
        last >= 0 ==> sender == out.messages@[last].header.destination->0@,
        last == -1 && old(conn)@.server_name is Some ==> sender == old(conn)@.server_name->0,
        last == -1 && old(conn)@.server_name is None ==> sender == "org.fcitx.Fcitx5"@,
        encode_utf8(body.signature@).len() <= u8::MAX,
        body.bytes@.len() <= u32::MAX,
        fields_bytes(signal_fields(ic_path@, member@, sender, body.signature@)).len() <= u32::MAX,
        16 + fields_bytes(signal_fields(ic_path@, member@, sender, body.signature@)).len() + 7
            <= usize::MAX,
    ensures
        header_of(final(next)@.client_out.skip(final(conn)@.client_out.len() as int)) matches Ok(h)
            && h.msg_type == MessageType::Signal && h.sender == Some(sender) && h.member == Some(
            member@,
        ),
{
    signals_come_from_where_the_client_called(conn, id, out, taken, offset, events, last);
    signals_name_their_sender(next, ic_path, member, body, sender);
}

/// A fresh connection has nothing queued, knows no name for the frontend, and
/// waits for the handshake. A broker without connections has no offset and no
/// events.
pub proof fn connections_start_empty(c: Connection, b: DbusBroker)
    requires
        call_ensures(Connection::new, (), c),
        call_ensures(DbusBroker::new, (), b),
    ensures
        c@.client_out.len() == 0 && c@.upstream_out.len() == 0,
        c@.server_name is None,
        c@.serial == 0,
        !c@.state.authed && c@.state.seen.len() == 0 && c@.state.pending.len() == 0,
        b@.offset is None,
        b@.events.len() == 0,
        forall|id: u64| !#[trigger] b@.connections.contains_key(id),
{
}

/// What the bus says is queued for the client behind what waits for it; what was
/// written leaves the front of its queue, and the other queue stays.
pub proof fn queues_keep_their_order(
    c: &mut Connection,
    data: &[u8],
    d: &mut Connection,
    n: usize,
    e: &mut Connection,
    m: usize,
    waiting: &[u8],
    outgoing: &[u8],
)
    requires
        call_ensures(Connection::from_upstream, (c, data), ()),
        call_ensures(Connection::client_out, (&*final(c),), waiting),
        *old(d) == *final(c),
        call_ensures(Connection::client_wrote, (d, n), ()),
        n <= old(c)@.client_out.len(),
        *old(e) == *final(d),
        call_ensures(Connection::upstream_wrote, (e, m), ()),
        m <= old(c)@.upstream_out.len(),
        call_ensures(Connection::upstream_out, (&*final(e),), outgoing),
    ensures
        waiting@ == old(c)@.client_out + data@,
        final(d)@.client_out == old(c)@.client_out.skip(n as int) + data@,
        final(d)@.upstream_out == old(c)@.upstream_out,
        outgoing@ == old(c)@.upstream_out.skip(m as int),
        final(e)@.client_out == final(d)@.client_out,
        final(e)@.serial == old(c)@.serial,
        final(e)@.server_name == old(c)@.server_name,
        final(e)@.state == old(c)@.state,
{
    assert(final(d)@.client_out =~= old(c)@.client_out.skip(n as int) + data@);
}

/// An address that is not supported is told back.
pub proof fn unsupported_addresses_are_told(e: UnsupportedScheme, r: String)
    requires
        call_ensures(UnsupportedScheme::message, (&e,), r),
    ensures
        r@ == "unsupported bus scheme: "@ + e.addr@,
{
}

} // verus!
