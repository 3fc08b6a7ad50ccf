//! Parsing of message headers.

use emskin::dbus::message::{
    bytes_needed, parse_header, Endian, MessageError, MessageType, FIELD_DESTINATION,
    FIELD_INTERFACE, FIELD_MEMBER, FIELD_PATH, FIELD_REPLY_SERIAL, FIELD_SIGNATURE,
    FIXED_HEADER_LEN,
};

// ---------------------------------------------------------------------
// Fixtures: hand-rolled DBus encoder. Not under test — just a scaffolding
// for exercising the parser on realistic bytes.
// ---------------------------------------------------------------------

fn pad_to(out: &mut Vec<u8>, bound: usize) {
    while out.len() % bound != 0 {
        out.push(0);
    }
}

fn push_signature_value(out: &mut Vec<u8>, sig: &str) {
    out.push(sig.len() as u8);
    out.extend_from_slice(sig.as_bytes());
    out.push(0);
}

/// Encode one `(byte, variant)` header-field struct.
fn push_field_struct(out: &mut Vec<u8>, code: u8, variant_sig: &str, value: &FieldValue) {
    pad_to(out, 8);
    out.push(code);
    push_signature_value(out, variant_sig);
    match value {
        FieldValue::Str(s) => {
            // STRING / OBJECT_PATH
            pad_to(out, 4);
            out.extend_from_slice(&(s.len() as u32).to_le_bytes());
            out.extend_from_slice(s.as_bytes());
            out.push(0);
        }
        FieldValue::Sig(s) => {
            push_signature_value(out, s);
        }
        FieldValue::U32(n) => {
            pad_to(out, 4);
            out.extend_from_slice(&n.to_le_bytes());
        }
    }
}

enum FieldValue {
    Str(String),
    Sig(String),
    U32(u32),
}

#[derive(Default)]
struct Fields {
    path: Option<String>,
    interface: Option<String>,
    member: Option<String>,
    destination: Option<String>,
    signature: Option<String>,
    reply_serial: Option<u32>,
}

fn build_method_call(serial: u32, fields: &Fields, body: &[u8]) -> Vec<u8> {
    let mut field_bytes = Vec::new();
    if let Some(s) = &fields.path {
        push_field_struct(
            &mut field_bytes,
            FIELD_PATH,
            "o",
            &FieldValue::Str(s.clone()),
        );
    }
    if let Some(s) = &fields.interface {
        push_field_struct(
            &mut field_bytes,
            FIELD_INTERFACE,
            "s",
            &FieldValue::Str(s.clone()),
        );
    }
    if let Some(s) = &fields.member {
        push_field_struct(
            &mut field_bytes,
            FIELD_MEMBER,
            "s",
            &FieldValue::Str(s.clone()),
        );
    }
    if let Some(s) = &fields.destination {
        push_field_struct(
            &mut field_bytes,
            FIELD_DESTINATION,
            "s",
            &FieldValue::Str(s.clone()),
        );
    }
    if let Some(s) = &fields.signature {
        push_field_struct(
            &mut field_bytes,
            FIELD_SIGNATURE,
            "g",
            &FieldValue::Sig(s.clone()),
        );
    }
    if let Some(n) = fields.reply_serial {
        push_field_struct(
            &mut field_bytes,
            FIELD_REPLY_SERIAL,
            "u",
            &FieldValue::U32(n),
        );
    }

    let mut msg = Vec::new();
    msg.extend_from_slice(&[b'l', 1, 0, 1]);
    msg.extend_from_slice(&(body.len() as u32).to_le_bytes());
    msg.extend_from_slice(&serial.to_le_bytes());
    msg.extend_from_slice(&(field_bytes.len() as u32).to_le_bytes());
    msg.extend_from_slice(&field_bytes);
    // Pad to 8-byte boundary before body.
    pad_to(&mut msg, 8);
    msg.extend_from_slice(body);
    msg
}

fn hello_call() -> Vec<u8> {
    build_method_call(
        1,
        &Fields {
            path: Some("/org/freedesktop/DBus".into()),
            interface: Some("org.freedesktop.DBus".into()),
            member: Some("Hello".into()),
            destination: Some("org.freedesktop.DBus".into()),
            ..Default::default()
        },
        &[],
    )
}

// ---------------------------------------------------------------------
// bytes_needed
// ---------------------------------------------------------------------

#[test]
fn bytes_needed_returns_none_before_full_fixed_header() {
    let msg = hello_call();
    for n in 0..FIXED_HEADER_LEN {
        assert_eq!(bytes_needed(&msg[..n]).unwrap(), None);
    }
}

#[test]
fn bytes_needed_reports_full_message_size() {
    let msg = hello_call();
    let total = bytes_needed(&msg[..FIXED_HEADER_LEN]).unwrap().unwrap();
    assert_eq!(total, msg.len());
}

#[test]
fn bytes_needed_rejects_wrong_protocol_version() {
    let mut msg = vec![b'l', 1, 0, 99];
    msg.extend_from_slice(&[0u8; 12]);
    assert_eq!(
        bytes_needed(&msg),
        Err(MessageError::WrongProtocolVersion(99))
    );
}

#[test]
fn bytes_needed_rejects_bad_endian_marker() {
    let mut msg = vec![b'X', 1, 0, 1];
    msg.extend_from_slice(&[0u8; 12]);
    assert_eq!(bytes_needed(&msg), Err(MessageError::InvalidEndian(b'X')));
}

#[test]
fn bytes_needed_rejects_oversized_message() {
    // body_len = 200 MiB, exceeds MAX_MESSAGE_SIZE.
    let body_len: u32 = 200 * 1024 * 1024;
    let mut msg = vec![b'l', 1, 0, 1];
    msg.extend_from_slice(&body_len.to_le_bytes());
    msg.extend_from_slice(&1u32.to_le_bytes());
    msg.extend_from_slice(&0u32.to_le_bytes());
    assert!(matches!(
        bytes_needed(&msg),
        Err(MessageError::MessageTooLarge(_))
    ));
}

#[test]
fn bytes_needed_handles_body_and_fields_padding() {
    // 1-byte signature field (`g` with value "u") leaves the header at
    // an un-aligned offset; the parser must pad to 8 before the body.
    let msg = build_method_call(
        2,
        &Fields {
            path: Some("/a".into()),
            interface: Some("b.c".into()),
            member: Some("D".into()),
            signature: Some("u".into()),
            ..Default::default()
        },
        &4u32.to_le_bytes(),
    );
    let total = bytes_needed(&msg[..FIXED_HEADER_LEN]).unwrap().unwrap();
    assert_eq!(total, msg.len());
}

// ---------------------------------------------------------------------
// parse_header
// ---------------------------------------------------------------------

#[test]
fn parse_hello_call_fields() {
    let msg = hello_call();
    let hdr = parse_header(&msg).unwrap();
    assert_eq!(hdr.endian, Endian::Little);
    assert_eq!(hdr.msg_type, MessageType::MethodCall);
    assert_eq!(hdr.serial, 1);
    assert_eq!(hdr.body_len, 0);
    assert_eq!(hdr.path.as_deref(), Some("/org/freedesktop/DBus"));
    assert_eq!(hdr.interface.as_deref(), Some("org.freedesktop.DBus"));
    assert_eq!(hdr.member.as_deref(), Some("Hello"));
    assert_eq!(hdr.destination.as_deref(), Some("org.freedesktop.DBus"));
    assert_eq!(hdr.signature, None);
    assert_eq!(hdr.reply_serial, None);
}

#[test]
fn parse_set_cursor_rect_call_has_iiii_signature() {
    // Mirrors org.fcitx.Fcitx5.InputContext1.SetCursorRect(x:i, y:i, w:i, h:i).
    let mut body = Vec::new();
    body.extend_from_slice(&100i32.to_le_bytes());
    body.extend_from_slice(&200i32.to_le_bytes());
    body.extend_from_slice(&10i32.to_le_bytes());
    body.extend_from_slice(&20i32.to_le_bytes());
    let msg = build_method_call(
        42,
        &Fields {
            path: Some("/org/freedesktop/portal/inputcontext/1".into()),
            interface: Some("org.fcitx.Fcitx5.InputContext1".into()),
            member: Some("SetCursorRect".into()),
            destination: Some("org.fcitx.Fcitx5".into()),
            signature: Some("iiii".into()),
            ..Default::default()
        },
        &body,
    );

    let hdr = parse_header(&msg).unwrap();
    assert_eq!(hdr.member.as_deref(), Some("SetCursorRect"));
    assert_eq!(
        hdr.interface.as_deref(),
        Some("org.fcitx.Fcitx5.InputContext1")
    );
    assert_eq!(hdr.signature.as_deref(), Some("iiii"));
    assert_eq!(hdr.body_len, 16);
}

#[test]
fn parse_method_return_captures_reply_serial() {
    // Method returns carry REPLY_SERIAL + optional SIGNATURE.
    let mut field_bytes = Vec::new();
    push_field_struct(
        &mut field_bytes,
        FIELD_REPLY_SERIAL,
        "u",
        &FieldValue::U32(7),
    );

    let mut msg = Vec::new();
    // method_return = 2
    msg.extend_from_slice(&[b'l', 2, 0, 1]);
    msg.extend_from_slice(&0u32.to_le_bytes());
    msg.extend_from_slice(&99u32.to_le_bytes());
    msg.extend_from_slice(&(field_bytes.len() as u32).to_le_bytes());
    msg.extend_from_slice(&field_bytes);
    pad_to(&mut msg, 8);

    let hdr = parse_header(&msg).unwrap();
    assert_eq!(hdr.msg_type, MessageType::MethodReturn);
    assert_eq!(hdr.reply_serial, Some(7));
    assert_eq!(hdr.serial, 99);
}

#[test]
fn parse_rejects_zero_serial() {
    let mut msg = hello_call();
    msg[8..12].copy_from_slice(&0u32.to_le_bytes());
    assert_eq!(parse_header(&msg), Err(MessageError::ZeroSerial));
}

#[test]
fn parse_rejects_bad_endian() {
    let mut msg = hello_call();
    msg[0] = b'X';
    assert_eq!(parse_header(&msg), Err(MessageError::InvalidEndian(b'X')));
}

#[test]
fn parse_rejects_wrong_version() {
    let mut msg = hello_call();
    msg[3] = 2;
    assert_eq!(
        parse_header(&msg),
        Err(MessageError::WrongProtocolVersion(2))
    );
}

#[test]
fn parse_rejects_truncated_fields() {
    let msg = hello_call();
    // Chop off the last field bytes.
    let truncated = &msg[..msg.len() - 16];
    assert_eq!(parse_header(truncated), Err(MessageError::TooShort));
}

#[test]
fn parse_big_endian_header() {
    // Build a little-endian message, then transcribe to big-endian by
    // flipping the four u32 fields that appear in the fixed prefix.
    let mut msg = hello_call();
    msg[0] = b'B';
    let body_len = u32::from_le_bytes(msg[4..8].try_into().unwrap());
    msg[4..8].copy_from_slice(&body_len.to_be_bytes());
    let serial = u32::from_le_bytes(msg[8..12].try_into().unwrap());
    msg[8..12].copy_from_slice(&serial.to_be_bytes());
    let fields_len = u32::from_le_bytes(msg[12..16].try_into().unwrap());
    msg[12..16].copy_from_slice(&fields_len.to_be_bytes());
    // Also flip every u32 length inside STRING values in the fields area.
    // We only wrote STRING fields (path/iface/member/dest), each starts
    // with a 4-byte length after the variant signature.
    let fields_end = FIXED_HEADER_LEN + fields_len as usize;
    let mut off = FIXED_HEADER_LEN;
    while off < fields_end {
        off = (off + 7) & !7;
        if off >= fields_end {
            break;
        }
        let _code = msg[off];
        off += 1;
        // variant sig: 1-byte len + bytes + NUL
        let sig_len = msg[off] as usize;
        off += 1 + sig_len + 1;
        // string value: 4-byte length (LE → BE), bytes, NUL
        off = (off + 3) & !3;
        let len_le = u32::from_le_bytes(msg[off..off + 4].try_into().unwrap());
        msg[off..off + 4].copy_from_slice(&len_le.to_be_bytes());
        off += 4 + len_le as usize + 1;
    }

    let hdr = parse_header(&msg).expect("big-endian header parses");
    assert_eq!(hdr.endian, Endian::Big);
    assert_eq!(hdr.member.as_deref(), Some("Hello"));
}

#[test]
fn parse_rejects_bad_field_signature() {
    // PATH field with invented variant signature "s" (should be "o").
    let mut field_bytes = Vec::new();
    push_field_struct(
        &mut field_bytes,
        FIELD_PATH,
        "s",
        &FieldValue::Str("/a".into()),
    );
    let mut msg = Vec::new();
    msg.extend_from_slice(&[b'l', 1, 0, 1]);
    msg.extend_from_slice(&0u32.to_le_bytes());
    msg.extend_from_slice(&1u32.to_le_bytes());
    msg.extend_from_slice(&(field_bytes.len() as u32).to_le_bytes());
    msg.extend_from_slice(&field_bytes);
    pad_to(&mut msg, 8);

    match parse_header(&msg) {
        Err(MessageError::FieldSignatureMismatch {
            field,
            expected,
            got,
        }) => {
            assert_eq!(field, FIELD_PATH);
            assert_eq!(expected, "o");
            assert_eq!(got, "s");
        }
        other => panic!("expected signature mismatch, got {other:?}"),
    }
}
