//! What to tell the user of a malformed message.

use crate::dbus::message::{Fault, MessageError};
use crate::text::{decimal, hex_byte, push_decimal, push_hex_byte};
use vstd::prelude::*;

verus! {

/// A fault in words.
pub open spec fn fault_text(f: Fault) -> Seq<char> {
    match f {
        Fault::InvalidEndian(b) => "invalid endianness marker: 0x"@ + hex_byte(b),
        Fault::WrongProtocolVersion(v) => "unsupported protocol version: "@ + decimal(v as nat),
        Fault::ZeroSerial => "message serial is zero"@,
        Fault::TooShort => "buffer shorter than declared header"@,
        Fault::FieldsTruncated => "header fields truncated"@,
        Fault::FieldSignatureMismatch { field, expected, got } => "field "@ + decimal(
            field as nat,
        ) + " expected signature '"@ + expected + "' got '"@ + got + "'"@,
        Fault::InvalidSignature => "malformed signature type"@,
        Fault::InvalidString => "malformed string type"@,
        Fault::UnknownField(c) => "unknown header field code: "@ + decimal(c as nat),
        Fault::MessageTooLarge(n) => "message size "@ + decimal(n as nat) + " exceeds maximum"@,
        Fault::SizeOverflow => "header size computation overflowed"@,
    }
}

impl MessageError {
    /// The error in words.
    pub fn message(&self) -> (r: String)
        ensures
            r@ == fault_text(self@),
    {
        match self {
            MessageError::InvalidEndian(b) => {
                let mut s = "invalid endianness marker: 0x".to_owned();
                push_hex_byte(&mut s, *b);
                s
            },
            MessageError::WrongProtocolVersion(v) => {
                let mut s = "unsupported protocol version: ".to_owned();
                push_decimal(&mut s, *v as u64);
                s
            },
            MessageError::ZeroSerial => "message serial is zero".to_owned(),
            MessageError::TooShort => "buffer shorter than declared header".to_owned(),
            MessageError::FieldsTruncated => "header fields truncated".to_owned(),
            MessageError::FieldSignatureMismatch { field, expected, got } => {
                let mut s = "field ".to_owned();
                push_decimal(&mut s, *field as u64);
                s.append(" expected signature '");
                s.append(expected);
                s.append("' got '");
                s.append(got.as_str());
                s.append("'");
                s
            },
            MessageError::InvalidSignature => "malformed signature type".to_owned(),
            MessageError::InvalidString => "malformed string type".to_owned(),
            MessageError::UnknownField(c) => {
                let mut s = "unknown header field code: ".to_owned();
                push_decimal(&mut s, *c as u64);
                s
            },
            MessageError::MessageTooLarge(n) => {
                let mut s = "message size ".to_owned();
                push_decimal(&mut s, *n as u64);
                s.append(" exceeds maximum");
                s
            },
            MessageError::SizeOverflow => "header size computation overflowed".to_owned(),
        }
    }
}

/// A fault is told in words of its own, with the byte, the number or the
/// signatures it is about. `hex` is a byte and `n` a number written out.
pub proof fn faults_are_told_in_words(
    e: MessageError,
    r: String,
    byte: u8,
    hex: &mut String,
    number: u64,
    n: &mut String,
)
    requires
        call_ensures(MessageError::message, (&e,), r),
        old(hex)@.len() == 0,
        call_ensures(push_hex_byte, (hex, byte), ()),
        old(n)@.len() == 0,
        call_ensures(push_decimal, (n, number), ()),
    ensures
        match e {
            MessageError::InvalidEndian(b) => b == byte ==> r@ == "invalid endianness marker: 0x"@
                + final(hex)@,
            MessageError::WrongProtocolVersion(v) => v == number ==> r@
                == "unsupported protocol version: "@ + final(n)@,
            MessageError::ZeroSerial => r@ == "message serial is zero"@,
            MessageError::TooShort => r@ == "buffer shorter than declared header"@,
            MessageError::FieldsTruncated => r@ == "header fields truncated"@,
            MessageError::FieldSignatureMismatch { field, expected, got } => field == number ==> r@
                == "field "@ + final(n)@ + " expected signature '"@ + expected@ + "' got '"@ + got@
                + "'"@,
            MessageError::InvalidSignature => r@ == "malformed signature type"@,
            MessageError::InvalidString => r@ == "malformed string type"@,
            MessageError::UnknownField(c) => c == number ==> r@ == "unknown header field code: "@
                + final(n)@,
            MessageError::MessageTooLarge(size) => size == number ==> r@ == "message size "@
                + final(n)@ + " exceeds maximum"@,
            MessageError::SizeOverflow => r@ == "header size computation overflowed"@,
        },
{
    assert(final(hex)@ =~= hex_byte(byte));
    assert(final(n)@ =~= decimal(number as nat));
}

} // verus!
