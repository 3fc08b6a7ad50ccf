//! Pairs of connections: what is passed on, answered here, and reported.

use emskin::broker::offset::SharedOffset;
use emskin::broker::rewrite::forward_chunk;
use emskin::broker::state::{ConnectionState, Output};
use emskin::dbus::encode::{body_empty, body_oay, Body, MethodReturn};
use emskin::dbus::message::{parse_header, MessageError, MessageType};
use emskin::dbus_broker::{
    ClientPump, ConnId, DbusBroker, FcitxEvent, FcitxMethod, Interception, PumpOutcome, ReadEvent,
    Side, WriteEvent,
};
use emskin::fcitx::{is_fcitx_interface, is_fcitx_well_known};
use emskin::rules::cursor::RewriteError;

const HANDSHAKE: &[u8] = b"\0AUTH EXTERNAL 30\r\nBEGIN\r\n";

fn pad_to(out: &mut Vec<u8>, bound: usize) {
    while out.len() % bound != 0 {
        out.push(0);
    }
}

fn push_string_field(out: &mut Vec<u8>, code: u8, sig: &str, value: &str) {
    pad_to(out, 8);
    out.push(code);
    out.push(sig.len() as u8);
    out.extend_from_slice(sig.as_bytes());
    out.push(0);
    pad_to(out, 4);
    out.extend_from_slice(&(value.len() as u32).to_le_bytes());
    out.extend_from_slice(value.as_bytes());
    out.push(0);
}

fn push_signature_field(out: &mut Vec<u8>, code: u8, sig: &str) {
    pad_to(out, 8);
    out.push(code);
    out.push(1);
    out.push(b'g');
    out.push(0);
    out.push(sig.len() as u8);
    out.extend_from_slice(sig.as_bytes());
    out.push(0);
}

fn method_call(serial: u32, fields: &[u8], body: &[u8]) -> Vec<u8> {
    let mut msg = Vec::new();
    msg.extend_from_slice(&[b'l', 1, 0, 1]);
    msg.extend_from_slice(&(body.len() as u32).to_le_bytes());
    msg.extend_from_slice(&serial.to_le_bytes());
    msg.extend_from_slice(&(fields.len() as u32).to_le_bytes());
    msg.extend_from_slice(fields);
    pad_to(&mut msg, 8);
    msg.extend_from_slice(body);
    msg
}

/// A call to the bus itself.
fn build_hello(serial: u32) -> Vec<u8> {
    let mut fields = Vec::new();
    push_string_field(&mut fields, 1, "o", "/org/freedesktop/DBus");
    push_string_field(&mut fields, 2, "s", "org.freedesktop.DBus");
    push_string_field(&mut fields, 3, "s", "Hello");
    push_string_field(&mut fields, 6, "s", "org.freedesktop.DBus");
    method_call(serial, &fields, &[])
}

/// A `CreateInputContext` with an empty `a(ss)` body.
fn build_create_input_context(serial: u32) -> Vec<u8> {
    let mut fields = Vec::new();
    push_string_field(&mut fields, 1, "o", "/org/freedesktop/portal/inputmethod");
    push_string_field(&mut fields, 2, "s", "org.fcitx.Fcitx.InputMethod1");
    push_string_field(&mut fields, 3, "s", "CreateInputContext");
    push_string_field(&mut fields, 6, "s", "org.fcitx.Fcitx5");
    push_signature_field(&mut fields, 8, "a(ss)");
    method_call(serial, &fields, &0u32.to_le_bytes())
}

fn build_set_cursor_rect(serial: u32, coords: (i32, i32, i32, i32)) -> Vec<u8> {
    let mut fields = Vec::new();
    push_string_field(&mut fields, 1, "o", "/a");
    push_string_field(&mut fields, 2, "s", "org.fcitx.Fcitx.InputContext1");
    push_string_field(&mut fields, 3, "s", "SetCursorRect");
    push_string_field(&mut fields, 6, "s", "org.fcitx.Fcitx5");
    push_signature_field(&mut fields, 8, "iiii");
    let mut body = Vec::new();
    body.extend_from_slice(&coords.0.to_le_bytes());
    body.extend_from_slice(&coords.1.to_le_bytes());
    body.extend_from_slice(&coords.2.to_le_bytes());
    body.extend_from_slice(&coords.3.to_le_bytes());
    method_call(serial, &fields, &body)
}

fn reply(to: u32, body: Body) -> Vec<u8> {
    MethodReturn {
        our_serial: 1,
        reply_to_serial: to,
        destination: None,
        sender: Some("org.fcitx.Fcitx5"),
        body,
    }
    .encode()
}

fn connected() -> (DbusBroker, ConnId) {
    let mut broker = DbusBroker::new();
    let id = broker.accept_one();
    (broker, id)
}

/// Hands client bytes to the broker and gives what there is to inspect.
fn inspect(broker: &mut DbusBroker, id: ConnId, data: &[u8]) -> Output {
    match broker.pump_client_to_upstream(id, ReadEvent::Data(data)) {
        ClientPump::Inspect(out) => out,
        other => panic!("{other:?}"),
    }
}

#[test]
fn set_offset_round_trip() {
    let mut b = DbusBroker::new();
    assert_eq!(b.offset(), None);
    b.set_offset(Some((10, 20)));
    assert_eq!(b.offset(), Some((10, 20)));
    b.set_offset(None);
    assert_eq!(b.offset(), None);
}

#[test]
fn set_cursor_rect_is_intercepted_not_forwarded() {
    let (mut broker, id) = connected();
    let mut payload = HANDSHAKE.to_vec();
    payload.extend_from_slice(&build_set_cursor_rect(7, (100, 200, 10, 20)));
    let out = inspect(&mut broker, id, &payload);
    assert_eq!(out.messages.len(), 1);
    assert!(is_fcitx_interface(out.messages[0].header.interface.as_deref().unwrap()));

    let taken = [Some(Interception {
        method: FcitxMethod::SetCursorRect { ic_path: "/a".into(), x: 100, y: 200, w: 10, h: 20 },
        reply: reply(7, body_empty()),
        rect: None,
    })];
    assert_eq!(broker.finish_client_pump(id, &out, &taken), PumpOutcome::Active);

    let upstream_got = broker.waiting(id, Side::Upstream);
    assert_eq!(
        upstream_got, HANDSHAKE,
        "upstream should see only the handshake; SetCursorRect was intercepted"
    );

    let client_got = broker.waiting(id, Side::Client);
    assert!(!client_got.is_empty(), "client should have a reply");
    let reply_hdr = parse_header(&client_got).unwrap();
    assert_eq!(reply_hdr.reply_serial, Some(7));
    assert_eq!(reply_hdr.body_len, 0); // empty body

    let events = broker.drain_events();
    assert_eq!(events.len(), 1);
    assert_eq!(
        events[0],
        FcitxEvent::CursorRect { conn: id, ic_path: "/a".into(), rect: [100, 200, 10, 20] }
    );
    assert!(broker.drain_events().is_empty());

    broker.remove_connection(id);
    assert!(broker.waiting(id, Side::Client).is_empty());
}

#[test]
fn non_fcitx_method_passes_through() {
    let (mut broker, id) = connected();
    let hello = build_hello(99);
    let mut payload = HANDSHAKE.to_vec();
    payload.extend_from_slice(&hello);
    let out = inspect(&mut broker, id, &payload);
    assert!(!is_fcitx_interface(out.messages[0].header.interface.as_deref().unwrap()));
    broker.finish_client_pump(id, &out, &[None]);

    let upstream_got = broker.waiting(id, Side::Upstream);
    assert!(upstream_got.starts_with(HANDSHAKE));
    let msg_bytes = &upstream_got[HANDSHAKE.len()..];
    assert_eq!(msg_bytes, hello.as_slice(), "Hello should pass through");
    let client_got = broker.waiting(id, Side::Client);
    assert!(client_got.is_empty(), "broker should not reply to Hello");
    assert!(broker.drain_events().is_empty());

    broker.remove_connection(id);
}

#[test]
fn create_input_context_is_intercepted_with_oay_reply() {
    let (mut broker, id) = connected();
    let mut payload = HANDSHAKE.to_vec();
    payload.extend_from_slice(&build_create_input_context(42));
    let out = inspect(&mut broker, id, &payload);

    // Two arguments side by side, which are packed as in the struct.
    let packed = body_oay("/org/freedesktop/portal/inputcontext/1", &[0; 16]);
    let body = Body { signature: "oay".to_string(), bytes: packed.bytes };
    let taken = [Some(Interception {
        method: FcitxMethod::Other,
        reply: reply(42, body),
        rect: None,
    })];
    broker.finish_client_pump(id, &out, &taken);

    let upstream_got = broker.waiting(id, Side::Upstream);
    assert_eq!(upstream_got, HANDSHAKE);

    let client_got = broker.waiting(id, Side::Client);
    let hdr = parse_header(&client_got).unwrap();
    assert_eq!(hdr.reply_serial, Some(42));
    assert_eq!(hdr.signature.as_deref(), Some("oay"));
    assert!(broker.drain_events().is_empty());

    broker.remove_connection(id);
}

#[test]
fn run_pair_rewrites_set_cursor_rect_live() {
    let offset = SharedOffset::new();
    offset.set(Some((50, 60)));
    let mut state = ConnectionState::new();

    let mut bus_bytes = forward_chunk(&mut state, HANDSHAKE, offset.get()).unwrap();
    let call = build_set_cursor_rect(7, (100, 200, 10, 20));
    bus_bytes.extend(forward_chunk(&mut state, &call, offset.get()).unwrap());

    let hpre = b"\0AUTH EXTERNAL 30\r\nBEGIN\r\n";
    assert!(bus_bytes.starts_with(hpre));
    let msg_bytes = &bus_bytes[hpre.len()..];

    let hdr = parse_header(msg_bytes).unwrap();
    assert_eq!(hdr.member.as_deref(), Some("SetCursorRect"));
    let body_start = msg_bytes.len() - hdr.body_len as usize;
    let body = &msg_bytes[body_start..];
    assert_eq!(i32::from_le_bytes(body[0..4].try_into().unwrap()), 150);
    assert_eq!(i32::from_le_bytes(body[4..8].try_into().unwrap()), 260);
    // w and h unchanged.
    assert_eq!(i32::from_le_bytes(body[8..12].try_into().unwrap()), 10);
    assert_eq!(i32::from_le_bytes(body[12..16].try_into().unwrap()), 20);
}

#[test]
fn run_pair_with_none_offset_is_pass_through() {
    let offset = SharedOffset::new(); // no offset
    let mut state = ConnectionState::new();
    let handshake = b"\0AUTH EXTERNAL 30\r\nBEGIN\r\n".to_vec();
    let mut bus_bytes = forward_chunk(&mut state, &handshake, offset.get()).unwrap();
    let call = build_set_cursor_rect(11, (42, 84, 5, 5));
    bus_bytes.extend(forward_chunk(&mut state, &call, offset.get()).unwrap());
    let mut expected = handshake;
    expected.extend_from_slice(&call);
    assert_eq!(bus_bytes, expected);
}

#[test]
fn bus_to_client_is_verbatim() {
    let (mut broker, id) = connected();
    let bus_blob = b"OK 0123456789abcdef0123456789abcdef\r\n";
    assert_eq!(
        broker.pump_upstream_to_client(id, ReadEvent::Data(bus_blob)),
        PumpOutcome::Active
    );
    let received = broker.waiting(id, Side::Client);
    assert_eq!(received, bus_blob);
}

#[test]
fn a_message_may_arrive_byte_by_byte() {
    let mut whole = ConnectionState::new();
    let mut pieces = ConnectionState::new();
    let mut payload = HANDSHAKE.to_vec();
    payload.extend_from_slice(&build_set_cursor_rect(7, (1, 2, 3, 4)));
    payload.extend_from_slice(&build_hello(8));
    let at_once = forward_chunk(&mut whole, &payload, Some((5, 6))).unwrap();
    let mut joined = Vec::new();
    for b in &payload {
        joined.extend(forward_chunk(&mut pieces, &[*b], Some((5, 6))).unwrap());
    }
    assert_eq!(joined, at_once);
    assert_eq!(joined.len(), payload.len());
}

#[test]
fn the_offset_in_force_moves_what_is_passed_on() {
    let (mut broker, id) = connected();
    broker.set_offset(Some((1, -1)));
    inspect(&mut broker, id, HANDSHAKE);
    let out = inspect(&mut broker, id, &build_set_cursor_rect(7, (100, 200, 10, 20)));
    broker.finish_client_pump(id, &out, &[None]);
    assert_eq!(
        broker.waiting(id, Side::Upstream),
        build_set_cursor_rect(7, (101, 199, 10, 20))
    );
}

#[test]
fn focus_and_destruction_are_reported() {
    let (mut broker, id) = connected();
    inspect(&mut broker, id, HANDSHAKE);
    let taken = |method: FcitxMethod, rect: Option<[i32; 4]>| {
        [Some(Interception { method, reply: reply(7, body_empty()), rect })]
    };
    let out = inspect(&mut broker, id, &build_hello(1));
    let path = || "/ic".to_string();
    broker.finish_client_pump(
        id,
        &out,
        &taken(FcitxMethod::FocusIn { ic_path: path() }, Some([1, 2, 3, 4])),
    );
    broker.finish_client_pump(id, &out, &taken(FcitxMethod::FocusOut { ic_path: path() }, None));
    broker.finish_client_pump(
        id,
        &out,
        &taken(FcitxMethod::SetCursorLocation { ic_path: path(), x: 5, y: 6 }, None),
    );
    broker.finish_client_pump(id, &out, &taken(FcitxMethod::DestroyIC { ic_path: path() }, None));
    assert_eq!(
        broker.drain_events(),
        [
            FcitxEvent::FocusChanged {
                conn: id,
                ic_path: path(),
                focused: true,
                rect: Some([1, 2, 3, 4]),
            },
            FcitxEvent::FocusChanged { conn: id, ic_path: path(), focused: false, rect: None },
            FcitxEvent::CursorRect { conn: id, ic_path: path(), rect: [5, 6, 0, 0] },
            FcitxEvent::IcDestroyed { conn: id, ic_path: path() },
        ]
    );
}

#[test]
fn committed_text_is_sent_as_a_signal() {
    let (mut broker, id) = connected();
    broker.emit_commit_string(id, "/ic", "hi");
    let got = broker.waiting(id, Side::Client);
    let hdr = parse_header(&got).unwrap();
    assert_eq!(hdr.msg_type, MessageType::Signal);
    assert_eq!(hdr.member.as_deref(), Some("CommitString"));
    assert_eq!(hdr.path.as_deref(), Some("/ic"));
    assert_eq!(hdr.signature.as_deref(), Some("s"));
    assert_eq!(&got[got.len() - 7..], b"\x02\0\0\0hi\0");
    broker.emit_commit_string(ConnId(77), "/ic", "hi");
    assert_eq!(broker.waiting(id, Side::Client), got);
}

#[test]
fn queues_shrink_by_what_was_written() {
    let (mut broker, id) = connected();
    broker.pump_upstream_to_client(id, ReadEvent::Data(b"abcdef"));
    assert!(broker.after_write(id, Side::Client, WriteEvent::Interrupted));
    assert!(broker.after_write(id, Side::Client, WriteEvent::Wrote(2)));
    assert_eq!(broker.waiting(id, Side::Client), b"cdef");
    assert!(!broker.after_write(id, Side::Client, WriteEvent::NotReady));
    assert!(!broker.after_write(id, Side::Client, WriteEvent::Wrote(0)));
    assert!(!broker.after_write(id, Side::Client, WriteEvent::Wrote(4)));
    assert!(broker.waiting(id, Side::Client).is_empty());
}

#[test]
fn closed_and_unknown_pairs_are_dead() {
    let (mut broker, id) = connected();
    assert!(matches!(
        broker.pump_client_to_upstream(id, ReadEvent::Closed),
        ClientPump::Done(PumpOutcome::PeerClosed)
    ));
    assert!(matches!(
        broker.pump_client_to_upstream(id, ReadEvent::NotReady),
        ClientPump::Done(PumpOutcome::Active)
    ));
    assert_eq!(broker.pump_upstream_to_client(id, ReadEvent::Closed), PumpOutcome::PeerClosed);
    let stranger = ConnId(1000);
    assert_eq!(
        broker.pump_upstream_to_client(stranger, ReadEvent::Data(b"x")),
        PumpOutcome::PeerClosed
    );
    assert_ne!(broker.accept_one(), id);
}

#[test]
fn malformed_messages_close_the_pair() {
    let (mut broker, id) = connected();
    inspect(&mut broker, id, HANDSHAKE);
    let mut bad = build_hello(1);
    bad[0] = b'X';
    match broker.pump_client_to_upstream(id, ReadEvent::Data(&bad)) {
        ClientPump::Malformed(e) => {
            assert_eq!(e, MessageError::InvalidEndian(b'X'));
            assert_eq!(e.message(), "invalid endianness marker: 0x58");
        }
        other => panic!("{other:?}"),
    }
}

#[test]
fn faults_are_told_in_words() {
    let told = |e: MessageError| e.message();
    assert_eq!(told(MessageError::WrongProtocolVersion(2)), "unsupported protocol version: 2");
    assert_eq!(told(MessageError::ZeroSerial), "message serial is zero");
    assert_eq!(told(MessageError::UnknownField(0)), "unknown header field code: 0");
    assert_eq!(
        told(MessageError::FieldSignatureMismatch {
            field: 1,
            expected: "o",
            got: "s".to_string()
        }),
        "field 1 expected signature 'o' got 's'"
    );
    assert_eq!(told(MessageError::MessageTooLarge(12345)), "message size 12345 exceeds maximum");
    assert_eq!(
        RewriteError::BodyTooShort { got: 4, expected: 16 }.message(),
        "cursor body too short: got 4 bytes, expected at least 16"
    );
}

#[test]
fn fcitx_is_known_by_three_names() {
    assert!(is_fcitx_well_known("org.fcitx.Fcitx5"));
    assert!(is_fcitx_well_known("org.freedesktop.portal.Fcitx"));
    assert!(is_fcitx_well_known("org.fcitx.Fcitx"));
    assert!(!is_fcitx_well_known("org.fcitx.Fcitx6"));
}
