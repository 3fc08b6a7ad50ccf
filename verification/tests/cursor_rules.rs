//! The caret rewrite on single bodies.

use emskin::dbus::message::{Endian, Header, MessageType};
use emskin::rules::cursor::{apply_offset, classify, CursorMethod, RewriteError};

const FCITX5_INPUT_CONTEXT_IFACE: &str = "org.fcitx.Fcitx.InputContext1";
const FCITX4_INPUT_CONTEXT_IFACE: &str = "org.fcitx.Fcitx.InputContext";

fn hdr(iface: &str, member: &str, sig: Option<&str>) -> Header {
    Header {
        endian: Endian::Little,
        msg_type: MessageType::MethodCall,
        flags: 0,
        body_len: 0,
        serial: 1,
        path: Some("/org/fcitx/InputContext/1".into()),
        interface: Some(iface.into()),
        member: Some(member.into()),
        error_name: None,
        destination: None,
        sender: None,
        signature: sig.map(String::from),
        reply_serial: None,
        unix_fds: None,
    }
}

// ---------------------------------------------------------------------
// classify
// ---------------------------------------------------------------------

#[test]
fn classifies_fcitx5_set_cursor_rect_v2() {
    let h = hdr(FCITX5_INPUT_CONTEXT_IFACE, "SetCursorRectV2", Some("iiiid"));
    assert_eq!(classify(&h), Some(CursorMethod::SetCursorRectV2));
}

#[test]
fn classifies_fcitx5_set_cursor_rect() {
    let h = hdr(FCITX5_INPUT_CONTEXT_IFACE, "SetCursorRect", Some("iiii"));
    assert_eq!(classify(&h), Some(CursorMethod::SetCursorRect));
}

#[test]
fn classifies_fcitx4_set_cursor_location() {
    let h = hdr(FCITX4_INPUT_CONTEXT_IFACE, "SetCursorLocation", Some("ii"));
    assert_eq!(classify(&h), Some(CursorMethod::SetCursorLocation));
}

#[test]
fn wrong_interface_not_classified() {
    let h = hdr("com.example.NotFcitx", "SetCursorRect", Some("iiii"));
    assert_eq!(classify(&h), None);
}

#[test]
fn wrong_member_not_classified() {
    let h = hdr(FCITX5_INPUT_CONTEXT_IFACE, "ProcessKeyEvent", Some("iiii"));
    assert_eq!(classify(&h), None);
}

#[test]
fn mismatched_signature_not_classified() {
    // fcitx5 SetCursorRect must be iiii; ii would be fcitx4 but on the
    // wrong interface.
    let h = hdr(FCITX5_INPUT_CONTEXT_IFACE, "SetCursorRect", Some("ii"));
    assert_eq!(classify(&h), None);
}

#[test]
fn missing_signature_not_classified() {
    let h = hdr(FCITX5_INPUT_CONTEXT_IFACE, "SetCursorRect", None);
    assert_eq!(classify(&h), None);
}

#[test]
fn missing_interface_not_classified() {
    let mut h = hdr(FCITX5_INPUT_CONTEXT_IFACE, "SetCursorRect", Some("iiii"));
    h.interface = None;
    assert_eq!(classify(&h), None);
}

// ---------------------------------------------------------------------
// apply_offset — SetCursorRect (iiii)
// ---------------------------------------------------------------------

fn le_i32s(vs: &[i32]) -> Vec<u8> {
    vs.iter().flat_map(|n| n.to_le_bytes()).collect()
}

fn be_i32s(vs: &[i32]) -> Vec<u8> {
    vs.iter().flat_map(|n| n.to_be_bytes()).collect()
}

#[test]
fn set_cursor_rect_translates_x_and_y_only() {
    let mut body = le_i32s(&[100, 200, 10, 20]);
    apply_offset(
        CursorMethod::SetCursorRect,
        Endian::Little,
        &mut body,
        (5, 7),
    )
    .unwrap();

    assert_eq!(i32::from_le_bytes(body[0..4].try_into().unwrap()), 105);
    assert_eq!(i32::from_le_bytes(body[4..8].try_into().unwrap()), 207);
    // w and h untouched
    assert_eq!(i32::from_le_bytes(body[8..12].try_into().unwrap()), 10);
    assert_eq!(i32::from_le_bytes(body[12..16].try_into().unwrap()), 20);
}

#[test]
fn set_cursor_rect_v2_translates_xy_and_preserves_scale() {
    // iiii + double(f64) = 16 + 8 = 24 bytes.
    let scale_bytes = 1.25f64.to_le_bytes();
    let mut body = Vec::new();
    body.extend_from_slice(&le_i32s(&[100, 200, 10, 20]));
    body.extend_from_slice(&scale_bytes);
    assert_eq!(body.len(), 24);

    apply_offset(
        CursorMethod::SetCursorRectV2,
        Endian::Little,
        &mut body,
        (5, 7),
    )
    .unwrap();

    assert_eq!(i32::from_le_bytes(body[0..4].try_into().unwrap()), 105);
    assert_eq!(i32::from_le_bytes(body[4..8].try_into().unwrap()), 207);
    // w, h, and scale (the trailing f64) all untouched.
    assert_eq!(i32::from_le_bytes(body[8..12].try_into().unwrap()), 10);
    assert_eq!(i32::from_le_bytes(body[12..16].try_into().unwrap()), 20);
    assert_eq!(&body[16..24], &scale_bytes);
}

#[test]
fn set_cursor_rect_v2_rejects_short_body() {
    // A 16-byte iiii body is *not* enough for V2 (needs 24 = iiii + f64).
    let mut body = le_i32s(&[0, 0, 0, 0]);
    let err = apply_offset(
        CursorMethod::SetCursorRectV2,
        Endian::Little,
        &mut body,
        (0, 0),
    )
    .unwrap_err();
    assert_eq!(
        err,
        RewriteError::BodyTooShort {
            got: 16,
            expected: 24
        }
    );
}

#[test]
fn set_cursor_location_translates_both_coords() {
    let mut body = le_i32s(&[100, 200]);
    apply_offset(
        CursorMethod::SetCursorLocation,
        Endian::Little,
        &mut body,
        (-10, 15),
    )
    .unwrap();

    assert_eq!(i32::from_le_bytes(body[0..4].try_into().unwrap()), 90);
    assert_eq!(i32::from_le_bytes(body[4..8].try_into().unwrap()), 215);
}

#[test]
fn big_endian_body_is_handled() {
    let mut body = be_i32s(&[100, 200, 10, 20]);
    apply_offset(CursorMethod::SetCursorRect, Endian::Big, &mut body, (5, 7)).unwrap();
    assert_eq!(i32::from_be_bytes(body[0..4].try_into().unwrap()), 105);
    assert_eq!(i32::from_be_bytes(body[4..8].try_into().unwrap()), 207);
}

#[test]
fn positive_overflow_saturates() {
    let mut body = le_i32s(&[i32::MAX - 1, 0, 0, 0]);
    apply_offset(
        CursorMethod::SetCursorRect,
        Endian::Little,
        &mut body,
        (1000, 0),
    )
    .unwrap();
    assert_eq!(i32::from_le_bytes(body[0..4].try_into().unwrap()), i32::MAX);
}

#[test]
fn negative_overflow_saturates() {
    let mut body = le_i32s(&[i32::MIN + 1, 0, 0, 0]);
    apply_offset(
        CursorMethod::SetCursorRect,
        Endian::Little,
        &mut body,
        (-1000, 0),
    )
    .unwrap();
    assert_eq!(i32::from_le_bytes(body[0..4].try_into().unwrap()), i32::MIN);
}

#[test]
fn short_body_rejected() {
    let mut body = vec![0u8; 4]; // only one i32 instead of four
    let err = apply_offset(
        CursorMethod::SetCursorRect,
        Endian::Little,
        &mut body,
        (0, 0),
    )
    .unwrap_err();
    assert_eq!(
        err,
        RewriteError::BodyTooShort {
            got: 4,
            expected: 16
        }
    );
}

#[test]
fn zero_offset_is_a_noop() {
    let original = le_i32s(&[42, 84, 10, 20]);
    let mut body = original.clone();
    apply_offset(
        CursorMethod::SetCursorRect,
        Endian::Little,
        &mut body,
        (0, 0),
    )
    .unwrap();
    assert_eq!(body, original);
}
