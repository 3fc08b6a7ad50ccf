//! Building of messages.

use emskin::dbus::encode::{
    body_bool, body_empty, body_oay, body_string, write_string, Error, MethodReturn, Signal,
};
use emskin::dbus::message::{bytes_needed, parse_header, read_string, Endian, MessageType};

// ---------------------------------------------------------------------
// Body helpers
// ---------------------------------------------------------------------

#[test]
fn body_empty_has_no_bytes_or_sig() {
    let b = body_empty();
    assert!(b.is_empty());
    assert_eq!(b.signature, "");
    assert!(b.bytes.is_empty());
}

#[test]
fn body_bool_true_is_1_u32_le() {
    let b = body_bool(true);
    assert_eq!(b.signature, "b");
    assert_eq!(b.bytes, vec![1, 0, 0, 0]);
}

#[test]
fn body_bool_false_is_0_u32_le() {
    let b = body_bool(false);
    assert_eq!(b.bytes, vec![0, 0, 0, 0]);
}

#[test]
fn body_string_has_len_prefix_and_nul() {
    let b = body_string("Hi");
    assert_eq!(b.signature, "s");
    // 2, 0, 0, 0 | 'H', 'i' | 0
    assert_eq!(b.bytes, vec![2, 0, 0, 0, b'H', b'i', 0]);
}

#[test]
fn body_oay_packs_path_and_byte_array() {
    let b = body_oay("/a", &[0xDE, 0xAD, 0xBE, 0xEF]);
    assert_eq!(b.signature, "(oay)");
    // path: len=1, "/a", NUL   [4 bytes len][2 bytes "/a"][1 byte NUL]
    // align to 4 after NUL — that's already at 8, no pad
    // array: len=4 (4 bytes LE), then 4 bytes
    let expected: Vec<u8> = vec![
        2, 0, 0, 0, // u32 path length = 2
        b'/', b'a', 0,    // "/a" + NUL
        0,       // pad to 4 (already at 8? 4+2+1=7, pad 1 byte to reach 8)
        4, 0, 0, 0, // u32 array length = 4
        0xDE, 0xAD, 0xBE, 0xEF,
    ];
    assert_eq!(b.bytes, expected);
}

// ---------------------------------------------------------------------
// Round-trip through the parser — the authoritative correctness check.
// ---------------------------------------------------------------------

#[test]
fn method_return_round_trips_through_parser() {
    let msg = MethodReturn {
        our_serial: 42,
        reply_to_serial: 7,
        destination: Some(":1.42"),
        sender: Some(":1.0"),
        body: body_bool(false),
    }
    .encode();

    let hdr = parse_header(&msg).unwrap();
    assert_eq!(hdr.msg_type, MessageType::MethodReturn);
    assert_eq!(hdr.endian, Endian::Little);
    assert_eq!(hdr.serial, 42);
    assert_eq!(hdr.reply_serial, Some(7));
    assert_eq!(hdr.destination.as_deref(), Some(":1.42"));
    assert_eq!(hdr.sender.as_deref(), Some(":1.0"));
    assert_eq!(hdr.signature.as_deref(), Some("b"));
    assert_eq!(hdr.body_len, 4);
}

#[test]
fn empty_body_method_return_has_no_signature_field() {
    let msg = MethodReturn {
        our_serial: 1,
        reply_to_serial: 100,
        destination: None,
        sender: None,
        body: body_empty(),
    }
    .encode();
    let hdr = parse_header(&msg).unwrap();
    assert_eq!(hdr.msg_type, MessageType::MethodReturn);
    assert_eq!(hdr.reply_serial, Some(100));
    assert_eq!(hdr.signature, None);
    assert_eq!(hdr.body_len, 0);
}

#[test]
fn signal_round_trips() {
    let msg = Signal {
        our_serial: 99,
        path: "/org/freedesktop/portal/inputcontext/7",
        interface: "org.fcitx.Fcitx.InputContext1",
        member: "CommitString",
        destination: Some(":1.42"),
        sender: None,
        body: body_string("你好"),
    }
    .encode();
    let hdr = parse_header(&msg).unwrap();
    assert_eq!(hdr.msg_type, MessageType::Signal);
    assert_eq!(
        hdr.path.as_deref(),
        Some("/org/freedesktop/portal/inputcontext/7")
    );
    assert_eq!(
        hdr.interface.as_deref(),
        Some("org.fcitx.Fcitx.InputContext1")
    );
    assert_eq!(hdr.member.as_deref(), Some("CommitString"));
    assert_eq!(hdr.signature.as_deref(), Some("s"));
    // "你好" is 6 bytes UTF-8; u32 length + 6 bytes + NUL = 11
    assert_eq!(hdr.body_len, 11);
}

#[test]
fn error_round_trips() {
    let msg = Error {
        our_serial: 7,
        reply_to_serial: 3,
        error_name: "org.fcitx.Fcitx.Error.NoSuchIC",
        destination: Some(":1.42"),
        sender: None,
        body: body_string("ic_id not found"),
    }
    .encode();
    let hdr = parse_header(&msg).unwrap();
    assert_eq!(hdr.msg_type, MessageType::Error);
    assert_eq!(
        hdr.error_name.as_deref(),
        Some("org.fcitx.Fcitx.Error.NoSuchIC")
    );
    assert_eq!(hdr.reply_serial, Some(3));
}

#[test]
fn create_input_context_reply_round_trips() {
    // This is the shape the fcitx5 InputMethod1 frontend will send:
    // (object_path, 16-byte uuid).
    let uuid = [0xAB; 16];
    let msg = MethodReturn {
        our_serial: 11,
        reply_to_serial: 5,
        destination: Some(":1.42"),
        sender: None,
        body: body_oay("/org/freedesktop/portal/inputcontext/7", &uuid),
    }
    .encode();
    let hdr = parse_header(&msg).unwrap();
    assert_eq!(hdr.signature.as_deref(), Some("(oay)"));
    // Body: 4 (path_len) + 38 (path) + 1 (NUL) + 1 (pad 43→44 for
    //       the array length's 4-byte alignment) + 4 (array_len)
    //       + 16 (uuid) = 64.
    assert_eq!(hdr.body_len, 64);
    assert_eq!(hdr.reply_serial, Some(5));
}

#[test]
fn multiple_messages_decode_sequentially() {
    // Sanity check that output has no extra trailing bytes a second
    // `bytes_needed` call would choke on.
    let m1 = MethodReturn {
        our_serial: 1,
        reply_to_serial: 1,
        destination: None,
        sender: None,
        body: body_empty(),
    }
    .encode();
    let m2 = MethodReturn {
        our_serial: 2,
        reply_to_serial: 2,
        destination: None,
        sender: None,
        body: body_bool(true),
    }
    .encode();
    let mut combined = m1.clone();
    combined.extend_from_slice(&m2);

    let n1 = bytes_needed(&combined)
        .unwrap()
        .unwrap();
    assert_eq!(n1, m1.len());
    let n2 = bytes_needed(&combined[n1..])
        .unwrap()
        .unwrap();
    assert_eq!(n2, m2.len());
}

#[test]
fn strings_of_any_length_read_back_behind_each_other() {
    for n in 0..9 {
        let member = "m".repeat(n + 1);
        let path = format!("/{}", "\u{e9}".repeat(n));
        let msg = Signal {
            our_serial: 1,
            path: &path,
            interface: "a.b",
            member: &member,
            destination: None,
            sender: Some(":1.9"),
            body: body_empty(),
        }
        .encode();
        let hdr = parse_header(&msg).unwrap();
        assert_eq!(hdr.path, Some(path));
        assert_eq!(hdr.interface.as_deref(), Some("a.b"));
        assert_eq!(hdr.member, Some(member));
        assert_eq!(hdr.sender.as_deref(), Some(":1.9"));
    }
}

#[test]
fn strings_read_back_from_where_they_were_written() {
    for (before, text) in [(0, ""), (1, "a"), (4, "org.fcitx.Fcitx5"), (7, "\u{6f22}\u{5b57}")] {
        let mut buf = vec![9u8; before];
        write_string(&mut buf, text);
        let written = buf.len();
        buf.extend_from_slice(&[1, 2, 3]);
        let mut off = before;
        let end = buf.len();
        let read = read_string(&buf, &mut off, end, Endian::Little);
        assert_eq!(read.ok().as_deref(), Some(text));
        assert_eq!(off, written);
    }
    let mut buf = Vec::new();
    write_string(&mut buf, "ab");
    assert_eq!(buf, [2, 0, 0, 0, b'a', b'b', 0]);
    let mut off = 0;
    assert!(read_string(&buf, &mut off, 6, Endian::Little).is_err());
}
