//! DBus wire-format header parsing (protocol version 1).
//!
//! The broker only needs enough of each message to identify the call
//! (interface and member), route it, and, for the few methods it rewrites,
//! locate the body. Everything else is forwarded as opaque bytes.
//!
//! ```text
//! offset  size  field
//!   0     1     endianness marker: 'l' (little) or 'B' (big)
//!   1     1     message type
//!   2     1     flags
//!   3     1     protocol version (must be 1)
//!   4     4     body length
//!   8     4     serial (must be non-zero)
//!  12     4     header-fields array length in bytes
//!  16     N     header fields (array of (byte, variant) structs)
//!  ...   pad    zero-pad to an 8-byte boundary
//!  B     body_len  message body
//! ```
//!
//! The mathematical side: `fields_of` reads the header fields as a sequence
//! of [`FieldModel`]s, and `header_of` gathers, for each header field, the
//! last value given for it.

use crate::text::{str_eq, str_from_utf8};
use vstd::prelude::*;
use vstd::utf8::*;

verus! {

/// Fixed prefix before the header-fields array.
pub const FIXED_HEADER_LEN: usize = 16;

/// The largest message that the reference bus accepts. Larger ones are
/// refused, so that a client cannot make the broker buffer without bound.
pub const MAX_MESSAGE_SIZE: usize = 0x800_0000;

#[derive(Debug, Clone, Copy, PartialEq, Eq, Structural)]
pub enum Endian {
    Little,
    Big,
}

/// The number whose four bytes, least significant first, are `a, b, c, d`.
pub open spec fn join_bytes(a: u8, b: u8, c: u8, d: u8) -> u32 {
    (a + 0x100 * b + 0x1_0000 * c + 0x100_0000 * d) as u32
}

impl Endian {
    /// The unsigned 32-bit number stored at `off` in this byte order.
    pub open spec fn u32_at(self, bytes: Seq<u8>, off: int) -> u32 {
        match self {
            Endian::Little => join_bytes(
                bytes[off],
                bytes[off + 1],
                bytes[off + 2],
                bytes[off + 3],
            ),
            Endian::Big => join_bytes(
                bytes[off + 3],
                bytes[off + 2],
                bytes[off + 1],
                bytes[off],
            ),
        }
    }

    /// Reads the first four bytes of `bytes`.
    pub fn read_u32(self, bytes: &[u8]) -> (r: u32)
        requires
            4 <= bytes@.len(),
        ensures
            r == self.u32_at(bytes@, 0),
    {
        let b0: u32 = bytes[0] as u32;
        let b1: u32 = bytes[1] as u32;
        let b2: u32 = bytes[2] as u32;
        let b3: u32 = bytes[3] as u32;
        match self {
            Endian::Little => b0 + 0x100 * b1 + 0x1_0000 * b2 + 0x100_0000 * b3,
            Endian::Big => b3 + 0x100 * b2 + 0x1_0000 * b1 + 0x100_0000 * b0,
        }
    }
}

#[derive(Debug, Clone, Copy, PartialEq, Eq, Structural)]
pub enum MessageType {
    Invalid,
    MethodCall,
    MethodReturn,
    Error,
    Signal,
}

impl MessageType {
    /// The message type that the byte `b` stands for.
    pub open spec fn of_byte(b: u8) -> MessageType {
        if b == 1 {
            MessageType::MethodCall
        } else if b == 2 {
            MessageType::MethodReturn
        } else if b == 3 {
            MessageType::Error
        } else if b == 4 {
            MessageType::Signal
        } else {
            MessageType::Invalid
        }
    }

    pub fn from_byte(b: u8) -> (r: MessageType)
        ensures
            r == MessageType::of_byte(b),
    {
        match b {
            1 => MessageType::MethodCall,
            2 => MessageType::MethodReturn,
            3 => MessageType::Error,
            4 => MessageType::Signal,
            _ => MessageType::Invalid,
        }
    }
}

pub const FIELD_INVALID: u8 = 0;

pub const FIELD_PATH: u8 = 1;

pub const FIELD_INTERFACE: u8 = 2;

pub const FIELD_MEMBER: u8 = 3;

pub const FIELD_ERROR_NAME: u8 = 4;

pub const FIELD_REPLY_SERIAL: u8 = 5;

pub const FIELD_DESTINATION: u8 = 6;

pub const FIELD_SENDER: u8 = 7;

pub const FIELD_SIGNATURE: u8 = 8;

pub const FIELD_UNIX_FDS: u8 = 9;

/// The part of a message that routing needs.
#[derive(Debug, Clone, PartialEq, Eq)]
pub struct Header {
    pub endian: Endian,
    pub msg_type: MessageType,
    pub flags: u8,
    pub body_len: u32,
    pub serial: u32,
    pub path: Option<String>,
    pub interface: Option<String>,
    pub member: Option<String>,
    pub error_name: Option<String>,
    pub destination: Option<String>,
    pub sender: Option<String>,
    pub signature: Option<String>,
    pub reply_serial: Option<u32>,
    pub unix_fds: Option<u32>,
}

/// What a [`Header`] holds, with its texts as character sequences.
#[verifier::ext_equal]
pub ghost struct HeaderModel {
    pub endian: Endian,
    pub msg_type: MessageType,
    pub flags: u8,
    pub body_len: u32,
    pub serial: u32,
    pub path: Option<Seq<char>>,
    pub interface: Option<Seq<char>>,
    pub member: Option<Seq<char>>,
    pub error_name: Option<Seq<char>>,
    pub destination: Option<Seq<char>>,
    pub sender: Option<Seq<char>>,
    pub signature: Option<Seq<char>>,
    pub reply_serial: Option<u32>,
    pub unix_fds: Option<u32>,
}

/// The text inside an optional string.
pub open spec fn text_of(s: Option<String>) -> Option<Seq<char>> {
    match s {
        Some(t) => Some(t@),
        None => None,
    }
}

impl View for Header {
    type V = HeaderModel;

    open spec fn view(&self) -> HeaderModel {
        HeaderModel {
            endian: self.endian,
            msg_type: self.msg_type,
            flags: self.flags,
            body_len: self.body_len,
            serial: self.serial,
            path: text_of(self.path),
            interface: text_of(self.interface),
            member: text_of(self.member),
            error_name: text_of(self.error_name),
            destination: text_of(self.destination),
            sender: text_of(self.sender),
            signature: text_of(self.signature),
            reply_serial: self.reply_serial,
            unix_fds: self.unix_fds,
        }
    }
}

impl Header {
    /// A copy that holds the same values.
    pub fn copy(&self) -> (r: Header)
        ensures
            r@ == self@,
    {
        Header {
            endian: self.endian,
            msg_type: self.msg_type,
            flags: self.flags,
            body_len: self.body_len,
            serial: self.serial,
            path: copy_text(&self.path),
            interface: copy_text(&self.interface),
            member: copy_text(&self.member),
            error_name: copy_text(&self.error_name),
            destination: copy_text(&self.destination),
            sender: copy_text(&self.sender),
            signature: copy_text(&self.signature),
            reply_serial: self.reply_serial,
            unix_fds: self.unix_fds,
        }
    }
}

/// A copy of an optional string.
pub fn copy_text(s: &Option<String>) -> (r: Option<String>)
    ensures
        text_of(r) == text_of(*s),
{
    match s {
        Some(t) => Some(t.clone()),
        None => None,
    }
}

#[derive(Debug, Clone, PartialEq, Eq)]
pub enum MessageError {
    InvalidEndian(u8),
    WrongProtocolVersion(u8),
    ZeroSerial,
    TooShort,
    FieldsTruncated,
    FieldSignatureMismatch { field: u8, expected: &'static str, got: String },
    InvalidSignature,
    InvalidString,
    UnknownField(u8),
    MessageTooLarge(usize),
    SizeOverflow,
}

/// What a [`MessageError`] says, with its texts as character sequences.
#[verifier::ext_equal]
pub ghost enum Fault {
    InvalidEndian(u8),
    WrongProtocolVersion(u8),
    ZeroSerial,
    TooShort,
    FieldsTruncated,
    FieldSignatureMismatch { field: u8, expected: Seq<char>, got: Seq<char> },
    InvalidSignature,
    InvalidString,
    UnknownField(u8),
    MessageTooLarge(int),
    SizeOverflow,
}

impl View for MessageError {
    type V = Fault;

    open spec fn view(&self) -> Fault {
        match *self {
            MessageError::InvalidEndian(b) => Fault::InvalidEndian(b),
            MessageError::WrongProtocolVersion(v) => Fault::WrongProtocolVersion(v),
            MessageError::ZeroSerial => Fault::ZeroSerial,
            MessageError::TooShort => Fault::TooShort,
            MessageError::FieldsTruncated => Fault::FieldsTruncated,
            MessageError::FieldSignatureMismatch { field, expected, got } =>
                Fault::FieldSignatureMismatch { field, expected: expected@, got: got@ },
            MessageError::InvalidSignature => Fault::InvalidSignature,
            MessageError::InvalidString => Fault::InvalidString,
            MessageError::UnknownField(c) => Fault::UnknownField(c),
            MessageError::MessageTooLarge(n) => Fault::MessageTooLarge(n as int),
            MessageError::SizeOverflow => Fault::SizeOverflow,
        }
    }
}

// ---------------------------------------------------------------------------
// The format
// ---------------------------------------------------------------------------

/// The byte order that the marker `b` announces.
pub open spec fn endian_of(b: u8) -> Option<Endian> {
    if b == 0x6c {
        Some(Endian::Little)
    } else if b == 0x42 {
        Some(Endian::Big)
    } else {
        None
    }
}

/// The smallest multiple of `bound` that is not below `n`.
pub open spec fn align_up(n: int, bound: int) -> int {
    ((n + bound - 1) / bound) * bound
}

/// `align_up` as far as the addition fits a machine word.
pub open spec fn align_checked(n: int, bound: int) -> Option<int> {
    if n + bound - 1 > usize::MAX {
        None
    } else {
        Some(align_up(n, bound))
    }
}

/// The size of the message that starts at `buf[0]`.
pub open spec fn message_size(buf: Seq<u8>) -> Result<Option<int>, Fault> {
    if buf.len() < FIXED_HEADER_LEN {
        Ok(None)
    } else if endian_of(buf[0]) is None {
        Err(Fault::InvalidEndian(buf[0]))
    } else if buf[3] != 1 {
        Err(Fault::WrongProtocolVersion(buf[3]))
    } else {
        let endian = endian_of(buf[0])->0;
        let total = align_up(FIXED_HEADER_LEN + endian.u32_at(buf, 12), 8) + endian.u32_at(buf, 4);
        if FIXED_HEADER_LEN + endian.u32_at(buf, 12) + 7 > usize::MAX || total > usize::MAX {
            Err(Fault::SizeOverflow)
        } else if total > MAX_MESSAGE_SIZE {
            Err(Fault::MessageTooLarge(total))
        } else {
            Ok(Some(total))
        }
    }
}

/// One header field as it stands on the wire.
#[verifier::ext_equal]
pub ghost struct FieldModel {
    pub code: u8,
    pub value: ValueModel,
}

/// The value of a header field.
#[verifier::ext_equal]
pub ghost enum ValueModel {
    Text(Seq<char>),
    Number(u32),
    Signature(Seq<char>),
}

/// The type tag that the value of the header field `code` carries, for the
/// codes that exist.
pub open spec fn field_tag(code: u8) -> Option<char> {
    if code == FIELD_PATH {
        Some('o')
    } else if code == FIELD_INTERFACE || code == FIELD_MEMBER || code == FIELD_ERROR_NAME || code
        == FIELD_DESTINATION || code == FIELD_SENDER {
        Some('s')
    } else if code == FIELD_REPLY_SERIAL || code == FIELD_UNIX_FDS {
        Some('u')
    } else if code == FIELD_SIGNATURE {
        Some('g')
    } else {
        None
    }
}

/// The signature value at `off`: a length byte, that many bytes of UTF-8 and
/// a NUL, all before `end`; with it, the offset behind it.
pub open spec fn signature_at(buf: Seq<u8>, off: int, end: int) -> Result<
    (Seq<char>, int),
    Fault,
> {
    if off >= end {
        Err(Fault::InvalidSignature)
    } else {
        let len = buf[off] as int;
        let next = off + 1 + len + 1;
        if next > usize::MAX {
            Err(Fault::SizeOverflow)
        } else if next > end || buf[next - 1] != 0 || !valid_utf8(buf.subrange(off + 1, next - 1)) {
            Err(Fault::InvalidSignature)
        } else {
            Ok((decode_utf8(buf.subrange(off + 1, next - 1)), next))
        }
    }
}

/// The string value at `off`: padding to a multiple of four, a length, that
/// many bytes of UTF-8 and a NUL, all before `end`; with it, the offset
/// behind it.
pub open spec fn string_at(buf: Seq<u8>, off: int, end: int, endian: Endian) -> Result<
    (Seq<char>, int),
    Fault,
> {
    if align_checked(off, 4) is None || align_up(off, 4) + 4 > usize::MAX {
        Err(Fault::SizeOverflow)
    } else {
        let start = align_up(off, 4) + 4;
        if start > end {
            Err(Fault::InvalidString)
        } else {
            let next = start + endian.u32_at(buf, start - 4) + 1;
            if next > usize::MAX {
                Err(Fault::SizeOverflow)
            } else if next > end || buf[next - 1] != 0 || !valid_utf8(
                buf.subrange(start, next - 1),
            ) {
                Err(Fault::InvalidString)
            } else {
                Ok((decode_utf8(buf.subrange(start, next - 1)), next))
            }
        }
    }
}

/// The number at `off`: padding to a multiple of four and four bytes before
/// `end`; with it, the offset behind it.
pub open spec fn number_at(buf: Seq<u8>, off: int, end: int, endian: Endian) -> Result<
    (u32, int),
    Fault,
> {
    if align_checked(off, 4) is None || align_up(off, 4) + 4 > usize::MAX {
        Err(Fault::SizeOverflow)
    } else if align_up(off, 4) + 4 > end {
        Err(Fault::FieldsTruncated)
    } else {
        Ok((endian.u32_at(buf, align_up(off, 4)), align_up(off, 4) + 4))
    }
}

/// The value at `off` of a header field with type tag `tag`.
pub open spec fn value_at(
    buf: Seq<u8>,
    off: int,
    end: int,
    endian: Endian,
    tag: char,
) -> Result<(ValueModel, int), Fault> {
    if tag == 'u' {
        match number_at(buf, off, end, endian) {
            Ok((n, next)) => Ok((ValueModel::Number(n), next)),
            Err(e) => Err(e),
        }
    } else if tag == 'g' {
        match signature_at(buf, off, end) {
            Ok((s, next)) => Ok((ValueModel::Signature(s), next)),
            Err(e) => Err(e),
        }
    } else {
        match string_at(buf, off, end, endian) {
            Ok((s, next)) => Ok((ValueModel::Text(s), next)),
            Err(e) => Err(e),
        }
    }
}

/// The header field that starts at `off`: its code, a signature that must be
/// the field's type tag, and the value; with it, the offset behind it.
pub open spec fn field_at(buf: Seq<u8>, off: int, end: int, endian: Endian) -> Result<
    (FieldModel, int),
    Fault,
> {
    let code = buf[off];
    match signature_at(buf, off + 1, end) {
        Err(e) => Err(e),
        Ok((got, at)) => match field_tag(code) {
            None => Err(Fault::UnknownField(code)),
            Some(tag) => if got != seq![tag] {
                Err(Fault::FieldSignatureMismatch { field: code, expected: seq![tag], got })
            } else {
                match value_at(buf, at, end, endian, tag) {
                    Err(e) => Err(e),
                    Ok((value, next)) => Ok((FieldModel { code, value }, next)),
                }
            },
        },
    }
}

/// The header fields in `buf[off..end]`, each on a multiple of eight, in
/// order; or the first fault.
#[verifier::opaque]
pub open spec fn fields_of(buf: Seq<u8>, off: int, end: int, endian: Endian) -> Result<
    Seq<FieldModel>,
    Fault,
>
    decreases end - off,
{
    if off >= end {
        Ok(seq![])
    } else if align_checked(off, 8) is None {
        Err(Fault::SizeOverflow)
    } else if align_up(off, 8) >= end {
        Ok(seq![])
    } else {
        match field_at(buf, align_up(off, 8), end, endian) {
            Err(e) => Err(e),
            Ok((field, next)) => match fields_of(buf, next, end, endian) {
                Err(e) => Err(e),
                Ok(rest) => Ok(seq![field] + rest),
            },
        }
    }
}

/// The last value given for the header field `code`.
pub open spec fn last_value(fields: Seq<FieldModel>, code: u8) -> Option<ValueModel>
    decreases fields.len(),
{
    if fields.len() == 0 {
        None
    } else if fields.last().code == code {
        Some(fields.last().value)
    } else {
        last_value(fields.drop_last(), code)
    }
}

/// The last text given for the header field `code`.
pub open spec fn last_text(fields: Seq<FieldModel>, code: u8) -> Option<Seq<char>> {
    match last_value(fields, code) {
        Some(ValueModel::Text(s)) => Some(s),
        Some(ValueModel::Signature(s)) => Some(s),
        _ => None,
    }
}

/// The last number given for the header field `code`.
pub open spec fn last_number(fields: Seq<FieldModel>, code: u8) -> Option<u32> {
    match last_value(fields, code) {
        Some(ValueModel::Number(n)) => Some(n),
        _ => None,
    }
}

/// The header of a message whose fixed part is at the start of `buf` and
/// whose fields are `fields`.
pub open spec fn gather(buf: Seq<u8>, endian: Endian, fields: Seq<FieldModel>) -> HeaderModel {
    HeaderModel {
        endian,
        msg_type: MessageType::of_byte(buf[1]),
        flags: buf[2],
        body_len: endian.u32_at(buf, 4),
        serial: endian.u32_at(buf, 8),
        path: last_text(fields, FIELD_PATH),
        interface: last_text(fields, FIELD_INTERFACE),
        member: last_text(fields, FIELD_MEMBER),
        error_name: last_text(fields, FIELD_ERROR_NAME),
        destination: last_text(fields, FIELD_DESTINATION),
        sender: last_text(fields, FIELD_SENDER),
        signature: last_text(fields, FIELD_SIGNATURE),
        reply_serial: last_number(fields, FIELD_REPLY_SERIAL),
        unix_fds: last_number(fields, FIELD_UNIX_FDS),
    }
}

/// The header of the message that starts at `buf[0]`.
pub open spec fn header_of(buf: Seq<u8>) -> Result<HeaderModel, Fault> {
    if buf.len() < FIXED_HEADER_LEN {
        Err(Fault::TooShort)
    } else if endian_of(buf[0]) is None {
        Err(Fault::InvalidEndian(buf[0]))
    } else if buf[3] != 1 {
        Err(Fault::WrongProtocolVersion(buf[3]))
    } else {
        let endian = endian_of(buf[0])->0;
        let end = FIXED_HEADER_LEN + endian.u32_at(buf, 12);
        if endian.u32_at(buf, 8) == 0 {
            Err(Fault::ZeroSerial)
        } else if end > usize::MAX {
            Err(Fault::SizeOverflow)
        } else if buf.len() < end {
            Err(Fault::TooShort)
        } else {
            match fields_of(buf, FIXED_HEADER_LEN as int, end, endian) {
                Err(e) => Err(e),
                Ok(fields) => Ok(gather(buf, endian, fields)),
            }
        }
    }
}

// ---------------------------------------------------------------------------
// The parser
// ---------------------------------------------------------------------------

/// How many bytes the next complete message at the start of `buf` takes.
///
/// `Ok(None)` while fewer than [`FIXED_HEADER_LEN`] bytes are there;
/// `Ok(Some(n))` when the message is exactly `n` bytes, which may be more
/// than `buf` holds; an error when the fixed prefix is malformed.
pub fn bytes_needed(buf: &[u8]) -> (r: Result<Option<usize>, MessageError>)
    ensures
        match r {
            Ok(None) => message_size(buf@) == Ok::<Option<int>, Fault>(None),
            Ok(Some(n)) => message_size(buf@) == Ok::<Option<int>, Fault>(Some(n as int)),
            Err(e) => message_size(buf@) == Err::<Option<int>, Fault>(e@),
        },
{
    if buf.len() < FIXED_HEADER_LEN {
        return Ok(None);
    }
    let endian = match parse_endian(buf[0]) {
        Ok(endian) => endian,
        Err(e) => return Err(e),
    };
    if buf[3] != 1 {
        return Err(MessageError::WrongProtocolVersion(buf[3]));
    }
    let body_len: usize = endian.read_u32(&buf[4..8]) as usize;
    let fields_len: usize = endian.read_u32(&buf[12..16]) as usize;
    let header_section: usize = match FIXED_HEADER_LEN.checked_add(fields_len) {
        Some(n) => n,
        None => return Err(MessageError::SizeOverflow),
    };
    let body_start: usize = match align8(header_section) {
        Some(n) => n,
        None => return Err(MessageError::SizeOverflow),
    };
    let total: usize = match body_start.checked_add(body_len) {
        Some(n) => n,
        None => return Err(MessageError::SizeOverflow),
    };
    if total > MAX_MESSAGE_SIZE {
        return Err(MessageError::MessageTooLarge(total));
    }
    Ok(Some(total))
}

fn parse_endian(b: u8) -> (r: Result<Endian, MessageError>)
    ensures
        match r {
            Ok(endian) => endian_of(b) == Some(endian),
            Err(e) => endian_of(b) is None && e@ == Fault::InvalidEndian(b),
        },
{
    if b == 0x6c {
        Ok(Endian::Little)
    } else if b == 0x42 {
        Ok(Endian::Big)
    } else {
        Err(MessageError::InvalidEndian(b))
    }
}

fn align8(n: usize) -> (r: Option<usize>)
    ensures
        match r {
            Some(m) => align_checked(n as int, 8) == Some(m as int),
            None => align_checked(n as int, 8) is None,
        },
{
    match n.checked_add(7) {
        Some(v) => Some((v / 8) * 8),
        None => None,
    }
}

fn align4(n: usize) -> (r: Option<usize>)
    ensures
        match r {
            Some(m) => align_checked(n as int, 4) == Some(m as int),
            None => align_checked(n as int, 4) is None,
        },
{
    match n.checked_add(3) {
        Some(v) => Some((v / 4) * 4),
        None => None,
    }
}

/// Fails unless the type tag `got` of a header field is the one it must have.
fn expect_sig(field: u8, expected: &'static str, got: &str) -> (r: Result<(), MessageError>)
    ensures
        r is Ok <==> got@ == expected@,
        match r {
            Ok(()) => true,
            Err(e) => e@ == (Fault::FieldSignatureMismatch { field, expected: expected@, got: got@ }),
        },
{
    if str_eq(got, expected) {
        Ok(())
    } else {
        Err(MessageError::FieldSignatureMismatch { field, expected, got: got.to_owned() })
    }
}

/// Reads a signature value and moves `off` behind it.
fn read_signature(buf: &[u8], off: &mut usize, end: usize) -> (r: Result<String, MessageError>)
    requires
        end <= buf@.len(),
    ensures
        match r {
            Ok(s) => signature_at(buf@, *old(off) as int, end as int) == Ok::<
                (Seq<char>, int),
                Fault,
            >((s@, *final(off) as int)),
            Err(e) => signature_at(buf@, *old(off) as int, end as int) == Err::<
                (Seq<char>, int),
                Fault,
            >(e@),
        },
{
    if *off >= end {
        return Err(MessageError::InvalidSignature);
    }
    let len: usize = buf[*off] as usize;
    let start: usize = *off + 1;
    let nul: usize = match start.checked_add(len) {
        Some(n) => n,
        None => return Err(MessageError::SizeOverflow),
    };
    let value_end: usize = match nul.checked_add(1) {
        Some(n) => n,
        None => return Err(MessageError::SizeOverflow),
    };
    if value_end > end {
        return Err(MessageError::InvalidSignature);
    }
    if buf[nul] != 0 {
        return Err(MessageError::InvalidSignature);
    }
    match str_from_utf8(&buf[start..nul]) {
        Some(s) => {
            *off = value_end;
            Ok(s.to_owned())
        },
        None => Err(MessageError::InvalidSignature),
    }
}

/// Reads a string or object-path value and moves `off` behind it.
pub fn read_string(buf: &[u8], off: &mut usize, end: usize, endian: Endian) -> (r: Result<
    String,
    MessageError,
>)
    requires
        end <= buf@.len(),
    ensures
        match r {
            Ok(s) => string_at(buf@, *old(off) as int, end as int, endian) == Ok::<
                (Seq<char>, int),
                Fault,
            >((s@, *final(off) as int)),
            Err(e) => string_at(buf@, *old(off) as int, end as int, endian) == Err::<
                (Seq<char>, int),
                Fault,
            >(e@),
        },
{
    let at: usize = match align4(*off) {
        Some(n) => n,
        None => return Err(MessageError::SizeOverflow),
    };
    let start: usize = match at.checked_add(4) {
        Some(n) => n,
        None => return Err(MessageError::SizeOverflow),
    };
    if start > end {
        return Err(MessageError::InvalidString);
    }
    let len: usize = endian.read_u32(&buf[at..start]) as usize;
    let nul: usize = match start.checked_add(len) {
        Some(n) => n,
        None => return Err(MessageError::SizeOverflow),
    };
    let value_end: usize = match nul.checked_add(1) {
        Some(n) => n,
        None => return Err(MessageError::SizeOverflow),
    };
    if value_end > end {
        return Err(MessageError::InvalidString);
    }
    if buf[nul] != 0 {
        return Err(MessageError::InvalidString);
    }
    match str_from_utf8(&buf[start..nul]) {
        Some(s) => {
            *off = value_end;
            Ok(s.to_owned())
        },
        None => Err(MessageError::InvalidString),
    }
}

/// Reads a number and moves `off` behind it.
fn read_u32_aligned(buf: &[u8], off: &mut usize, end: usize, endian: Endian) -> (r: Result<
    u32,
    MessageError,
>)
    requires
        end <= buf@.len(),
    ensures
        match r {
            Ok(n) => number_at(buf@, *old(off) as int, end as int, endian) == Ok::<
                (u32, int),
                Fault,
            >((n, *final(off) as int)),
            Err(e) => number_at(buf@, *old(off) as int, end as int, endian) == Err::<
                (u32, int),
                Fault,
            >(e@),
        },
{
    let at: usize = match align4(*off) {
        Some(n) => n,
        None => return Err(MessageError::SizeOverflow),
    };
    let value_end: usize = match at.checked_add(4) {
        Some(n) => n,
        None => return Err(MessageError::SizeOverflow),
    };
    if value_end > end {
        return Err(MessageError::FieldsTruncated);
    }
    let v: u32 = endian.read_u32(&buf[at..value_end]);
    *off = value_end;
    Ok(v)
}

/// A header with one more field read into it.
pub open spec fn with_field(h: HeaderModel, f: FieldModel) -> HeaderModel {
    let text = match f.value {
        ValueModel::Text(s) => Some(s),
        ValueModel::Signature(s) => Some(s),
        ValueModel::Number(_) => None,
    };
    let number = match f.value {
        ValueModel::Number(n) => Some(n),
        _ => None,
    };
    if f.code == FIELD_PATH {
        HeaderModel { path: text, ..h }
    } else if f.code == FIELD_INTERFACE {
        HeaderModel { interface: text, ..h }
    } else if f.code == FIELD_MEMBER {
        HeaderModel { member: text, ..h }
    } else if f.code == FIELD_ERROR_NAME {
        HeaderModel { error_name: text, ..h }
    } else if f.code == FIELD_REPLY_SERIAL {
        HeaderModel { reply_serial: number, ..h }
    } else if f.code == FIELD_DESTINATION {
        HeaderModel { destination: text, ..h }
    } else if f.code == FIELD_SENDER {
        HeaderModel { sender: text, ..h }
    } else if f.code == FIELD_SIGNATURE {
        HeaderModel { signature: text, ..h }
    } else if f.code == FIELD_UNIX_FDS {
        HeaderModel { unix_fds: number, ..h }
    } else {
        h
    }
}

/// Gathering one more field changes the header at that field alone.
proof fn lemma_gather_push(buf: Seq<u8>, endian: Endian, fields: Seq<FieldModel>, f: FieldModel)
    ensures
        gather(buf, endian, fields.push(f)) == with_field(gather(buf, endian, fields), f),
{
    assert(fields.push(f).drop_last() =~= fields);
    assert(forall|code: u8| #[trigger]
        last_value(fields.push(f), code) == if f.code == code {
            Some(f.value)
        } else {
            last_value(fields, code)
        });
}

/// Fields read before the ones in `rest`.
spec fn prepend(seen: Seq<FieldModel>, rest: Result<Seq<FieldModel>, Fault>) -> Result<
    Seq<FieldModel>,
    Fault,
> {
    match rest {
        Ok(fields) => Ok(seen + fields),
        Err(e) => Err(e),
    }
}

/// Reads the header field at `off` into `hdr` and moves `off` behind it.
fn read_field(buf: &[u8], off: &mut usize, end: usize, endian: Endian, hdr: &mut Header) -> (r:
    Result<(), MessageError>)
    requires
        *old(off) < end <= buf@.len(),
    ensures
        match r {
            Ok(()) => match field_at(buf@, *old(off) as int, end as int, endian) {
                Ok((f, next)) => next == *final(off) && final(hdr)@ == with_field(old(hdr)@, f),
                Err(_) => false,
            },
            Err(e) => field_at(buf@, *old(off) as int, end as int, endian) == Err::<
                (FieldModel, int),
                Fault,
            >(e@),
        },
{
    proof {
        reveal_strlit("o");
        reveal_strlit("s");
        reveal_strlit("u");
        reveal_strlit("g");
        assert("o"@ =~= seq!['o']);
        assert("s"@ =~= seq!['s']);
        assert("u"@ =~= seq!['u']);
        assert("g"@ =~= seq!['g']);
    }
    let field_code: u8 = buf[*off];
    *off += 1;
    let sig = match read_signature(buf, off, end) {
        Ok(sig) => sig,
        Err(e) => return Err(e),
    };
    let expected: &'static str = match field_code {
        FIELD_PATH => "o",
        FIELD_INTERFACE => "s",
        FIELD_MEMBER => "s",
        FIELD_ERROR_NAME => "s",
        FIELD_REPLY_SERIAL => "u",
        FIELD_DESTINATION => "s",
        FIELD_SENDER => "s",
        FIELD_SIGNATURE => "g",
        FIELD_UNIX_FDS => "u",
        other => return Err(MessageError::UnknownField(other)),
    };
    match expect_sig(field_code, expected, sig.as_str()) {
        Ok(()) => {},
        Err(e) => return Err(e),
    }
    if field_code == FIELD_REPLY_SERIAL || field_code == FIELD_UNIX_FDS {
        let n: u32 = match read_u32_aligned(buf, off, end, endian) {
            Ok(n) => n,
            Err(e) => return Err(e),
        };
        if field_code == FIELD_REPLY_SERIAL {
            hdr.reply_serial = Some(n);
        } else {
            hdr.unix_fds = Some(n);
        }
    } else if field_code == FIELD_SIGNATURE {
        match read_signature(buf, off, end) {
            Ok(s) => hdr.signature = Some(s),
            Err(e) => return Err(e),
        }
    } else {
        let s = match read_string(buf, off, end, endian) {
            Ok(s) => s,
            Err(e) => return Err(e),
        };
        match field_code {
            FIELD_PATH => hdr.path = Some(s),
            FIELD_INTERFACE => hdr.interface = Some(s),
            FIELD_MEMBER => hdr.member = Some(s),
            FIELD_ERROR_NAME => hdr.error_name = Some(s),
            FIELD_DESTINATION => hdr.destination = Some(s),
            _ => hdr.sender = Some(s),
        }
    }
    Ok(())
}

/// Decodes the fixed prefix and the header fields of a message.
///
/// `buf` may be longer than the header section: what follows is the body and
/// is ignored.
pub fn parse_header(buf: &[u8]) -> (r: Result<Header, MessageError>)
    ensures
        match r {
            Ok(h) => header_of(buf@) == Ok::<HeaderModel, Fault>(h@),
            Err(e) => header_of(buf@) == Err::<HeaderModel, Fault>(e@),
        },
{
    if buf.len() < FIXED_HEADER_LEN {
        return Err(MessageError::TooShort);
    }
    let endian = match parse_endian(buf[0]) {
        Ok(endian) => endian,
        Err(e) => return Err(e),
    };
    if buf[3] != 1 {
        return Err(MessageError::WrongProtocolVersion(buf[3]));
    }
    let msg_type = MessageType::from_byte(buf[1]);
    let flags: u8 = buf[2];
    let body_len: u32 = endian.read_u32(&buf[4..8]);
    let serial: u32 = endian.read_u32(&buf[8..12]);
    if serial == 0 {
        return Err(MessageError::ZeroSerial);
    }
    let fields_len: usize = endian.read_u32(&buf[12..16]) as usize;
    let fields_end: usize = match FIXED_HEADER_LEN.checked_add(fields_len) {
        Some(n) => n,
        None => return Err(MessageError::SizeOverflow),
    };
    if buf.len() < fields_end {
        return Err(MessageError::TooShort);
    }
    let mut hdr = Header {
        endian,
        msg_type,
        flags,
        body_len,
        serial,
        path: None,
        interface: None,
        member: None,
        error_name: None,
        destination: None,
        sender: None,
        signature: None,
        reply_serial: None,
        unix_fds: None,
    };
    proof {
        reveal(fields_of);
    }
    let mut off: usize = FIXED_HEADER_LEN;
    let ghost mut seen: Seq<FieldModel> = seq![];
    let ghost all = fields_of(buf@, FIXED_HEADER_LEN as int, fields_end as int, endian);
    proof {
        assert(prepend(seen, all) == all) by {
            if all is Ok {
                assert(seen + all->Ok_0 =~= all->Ok_0);
            }
        }
    }
    while off < fields_end
        invariant
            fields_end <= buf@.len(),
            hdr@ == gather(buf@, endian, seen),
            all == fields_of(buf@, FIXED_HEADER_LEN as int, fields_end as int, endian),
            all == prepend(seen, fields_of(buf@, off as int, fields_end as int, endian)),
            off >= fields_end ==> fields_of(buf@, off as int, fields_end as int, endian) == Ok::<
                Seq<FieldModel>,
                Fault,
            >(seq![]),
            header_of(buf@) == match all {
                Ok(fields) => Ok::<HeaderModel, Fault>(gather(buf@, endian, fields)),
                Err(e) => Err::<HeaderModel, Fault>(e),
            },
        ensures
            all == Ok::<Seq<FieldModel>, Fault>(seen),
            hdr@ == gather(buf@, endian, seen),
            header_of(buf@) == Ok::<HeaderModel, Fault>(gather(buf@, endian, seen)),
        decreases fields_end - off,
    {
        proof {
            reveal(fields_of);
        }
        off = match align8(off) {
            Some(n) => n,
            None => return Err(MessageError::SizeOverflow),
        };
        if off >= fields_end {
            assert(seen + Seq::<FieldModel>::empty() =~= seen);
            break;
        }
        let ghost at = off as int;
        match read_field(buf, &mut off, fields_end, endian, &mut hdr) {
            Ok(()) => {},
            Err(e) => return Err(e),
        }
        proof {
            let f = (field_at(buf@, at, fields_end as int, endian)->Ok_0).0;
            lemma_gather_push(buf@, endian, seen, f);
            let rest = fields_of(buf@, off as int, fields_end as int, endian);
            if rest is Ok {
                assert(seen + (seq![f] + rest->Ok_0) =~= seen.push(f) + rest->Ok_0);
            }
            seen = seen.push(f);
        }
    }
    Ok(hdr)
}

// ---------------------------------------------------------------------------
// What the parser promises
// ---------------------------------------------------------------------------

/// The number whose four bytes stand at `off`, the least significant one first
/// for `l` and last for `B`.
pub open spec fn wire_number(bytes: Seq<u8>, off: int, marker: u8) -> int {
    if marker == 'l' as u8 {
        bytes[off] + 256 * bytes[off + 1] + 65536 * bytes[off + 2] + 16777216 * bytes[off + 3]
    } else {
        bytes[off + 3] + 256 * bytes[off + 2] + 65536 * bytes[off + 1] + 16777216 * bytes[off]
    }
}

/// The size of a message is not known before its fixed part is there. It is then
/// the fixed part, the fields, padding to a multiple of eight and the body, and
/// at most a hundred and twenty-eight mebibytes. A wrong byte-order marker or
/// version is refused, and so is a message that is larger.
pub proof fn sizes_are_announced(buf: &[u8], r: Result<Option<usize>, MessageError>)
    requires
        call_ensures(bytes_needed, (buf,), r),
    ensures
        buf@.len() < 16 <==> r == Ok::<Option<usize>, MessageError>(None),
        buf@.len() >= 16 ==> {
            let fields = wire_number(buf@, 12, buf@[0]);
            let body = wire_number(buf@, 4, buf@[0]);
            let known = buf@[0] == 'l' as u8 || buf@[0] == 'B' as u8;
            &&& !known ==> r is Err && r->Err_0@ == Fault::InvalidEndian(buf@[0])
            &&& known && buf@[3] != 1 ==> r is Err && r->Err_0@ == Fault::WrongProtocolVersion(
                buf@[3],
            )
            &&& r matches Ok(Some(n)) ==> {
                &&& known && buf@[3] == 1
                &&& 16 + fields + body <= n < 16 + fields + body + 8
                &&& (n - body) % 8 == 0
                &&& n <= 134217728
            }
            &&& known && buf@[3] == 1 && 16 + fields + 7 + body <= 134217728 ==> r is Ok
            &&& known && buf@[3] == 1 && 16 + fields + body > 134217728 ==> r is Err
        },
{
    if buf@.len() >= 16 {
        lemma_wire_number(buf@, 12);
        lemma_wire_number(buf@, 4);
    }
}

proof fn lemma_wire_number(bytes: Seq<u8>, off: int)
    requires
        0 <= off,
        off + 4 <= bytes.len(),
    ensures
        endian_of(bytes[0]) matches Some(endian) ==> endian.u32_at(bytes, off) == wire_number(
            bytes,
            off,
            bytes[0],
        ),
{
    assert forall|a: u8, b: u8, c: u8, d: u8| #[trigger] join_bytes(a, b, c, d) == a + 256 * b
        + 65536 * c + 16777216 * d by {}
}

/// What a header says of its fixed part is what the bytes say: byte order, type,
/// flags, body length and serial, which is not zero. The first byte, the version
/// and the serial are refused where they are wrong.
pub proof fn fixed_parts_are_read(buf: &[u8], r: Result<Header, MessageError>)
    requires
        call_ensures(parse_header, (buf,), r),
    ensures
        buf@.len() < 16 ==> r is Err && r->Err_0@ == Fault::TooShort,
        buf@.len() >= 16 ==> {
            let known = buf@[0] == 'l' as u8 || buf@[0] == 'B' as u8;
            let serial = wire_number(buf@, 8, buf@[0]);
            &&& !known ==> r is Err && r->Err_0@ == Fault::InvalidEndian(buf@[0])
            &&& known && buf@[3] != 1 ==> r is Err && r->Err_0@ == Fault::WrongProtocolVersion(
                buf@[3],
            )
            &&& known && buf@[3] == 1 && serial == 0 ==> r is Err && r->Err_0@ == Fault::ZeroSerial
            &&& r matches Ok(h) ==> {
                &&& known && buf@[3] == 1 && serial != 0
                &&& h.endian == Endian::Little <==> buf@[0] == 'l' as u8
                &&& h.flags == buf@[2]
                &&& h.body_len == wire_number(buf@, 4, buf@[0])
                &&& h.serial == serial
                &&& h.msg_type == MessageType::MethodCall <==> buf@[1] == 1
                &&& h.msg_type == MessageType::MethodReturn <==> buf@[1] == 2
                &&& h.msg_type == MessageType::Error <==> buf@[1] == 3
                &&& h.msg_type == MessageType::Signal <==> buf@[1] == 4
                &&& buf@.len() >= 16 + wire_number(buf@, 12, buf@[0])
            }
        },
{
    if buf@.len() >= 16 {
        lemma_wire_number(buf@, 12);
        lemma_wire_number(buf@, 8);
        lemma_wire_number(buf@, 4);
        if let Ok(h) = r {
            assert(h@.endian == h.endian && h@.msg_type == h.msg_type && h@.flags == h.flags
                && h@.body_len == h.body_len && h@.serial == h.serial);
        }
    }
}

/// A header without fields says nothing beyond its fixed part.
pub proof fn no_fields_no_values(buf: &[u8], r: Result<Header, MessageError>)
    requires
        call_ensures(parse_header, (buf,), r),
        buf@.len() >= 16,
        buf@[0] == 'l' as u8 || buf@[0] == 'B' as u8,
        buf@[3] == 1,
        wire_number(buf@, 8, buf@[0]) != 0,
        wire_number(buf@, 12, buf@[0]) == 0,
    ensures
        r matches Ok(h) && {
            &&& h.path is None && h.interface is None && h.member is None
            &&& h.error_name is None && h.destination is None && h.sender is None
            &&& h.signature is None && h.reply_serial is None && h.unix_fds is None
        },
{
    lemma_wire_number(buf@, 12);
    lemma_wire_number(buf@, 8);
    reveal(fields_of);
    let endian = endian_of(buf@[0])->0;
    assert(endian.u32_at(buf@, 12) == 0);
    assert(header_of(buf@) == Ok::<HeaderModel, Fault>(gather(buf@, endian, seq![])));
    if let Ok(h) = r {
        assert(h@ == gather(buf@, endian, seq![]));
        assert(h@.path == text_of(h.path) && h@.interface == text_of(h.interface) && h@.member
            == text_of(h.member) && h@.error_name == text_of(h.error_name) && h@.destination
            == text_of(h.destination) && h@.sender == text_of(h.sender) && h@.signature
            == text_of(h.signature) && h@.reply_serial == h.reply_serial && h@.unix_fds
            == h.unix_fds);
    }
}

/// Fields are told by their number. A header with one field that is a text gives
/// that text for it and nothing for any other: 1 is the path, 2 the interface,
/// 3 the member, 4 the name of the error, 6 the destination and 7 the sender. A
/// path is tagged `o`, any other text `s`.
pub proof fn texts_are_told_by_their_number(
    buf: &[u8],
    code: u8,
    length: int,
    r: Result<Header, MessageError>,
)
    requires
        call_ensures(parse_header, (buf,), r),
        16 + 8 + length + 1 <= buf@.len(),
        buf@[0] == 'l' as u8,
        buf@[3] == 1,
        wire_number(buf@, 8, 'l' as u8) != 0,
        wire_number(buf@, 12, 'l' as u8) == 8 + length + 1,
        buf@[16] == code,
        buf@[17] == 1,
        buf@[18] == if code == 1 {
            'o' as u8
        } else {
            's' as u8
        },
        buf@[19] == 0,
        wire_number(buf@, 20, 'l' as u8) == length,
        buf@[24 + length] == 0,
        valid_utf8(buf@.subrange(24, 24 + length)),
        1 <= code <= 4 || 6 <= code <= 7,
    ensures
        r matches Ok(h) && {
            let text = Some(decode_utf8(buf@.subrange(24, 24 + length)));
            &&& text_of(h.path) == if code == 1 { text } else { None }
            &&& text_of(h.interface) == if code == 2 { text } else { None }
            &&& text_of(h.member) == if code == 3 { text } else { None }
            &&& text_of(h.error_name) == if code == 4 { text } else { None }
            &&& text_of(h.destination) == if code == 6 { text } else { None }
            &&& text_of(h.sender) == if code == 7 { text } else { None }
            &&& h.signature is None && h.reply_serial is None && h.unix_fds is None
        },
{
    lemma_wire_number(buf@, 12);
    lemma_wire_number(buf@, 8);
    lemma_wire_number(buf@, 20);
    let b = buf@;
    let end = 25 + length;
    let tag = if code == 1 {
        'o'
    } else {
        's'
    };
    let text = decode_utf8(b.subrange(24, 24 + length));
    let f = FieldModel { code, value: ValueModel::Text(text) };
    assert(b.len() == buf.len());
    assert(align_up(20, 4) == 20);
    assert(Endian::Little.u32_at(b, 20) == length);
    lemma_one_byte_text(b.subrange(18, 19), tag);
    assert(signature_at(b, 17, end) == Ok::<(Seq<char>, int), Fault>((seq![tag], 20)));
    assert(string_at(b, 20, end, Endian::Little) == Ok::<(Seq<char>, int), Fault>((text, end)));
    assert(field_at(b, 16, end, Endian::Little) == Ok::<(FieldModel, int), Fault>((f, end)));
    lemma_one_field(b, f, end);
    if let Ok(h) = r {
        lemma_gathered(h, b, f);
    }
}

/// The reply serial is field number 5 and the count of file descriptors number
/// 9: numbers, tagged `u`.
pub proof fn numbers_are_told_by_their_number(
    buf: &[u8],
    code: u8,
    r: Result<Header, MessageError>,
)
    requires
        call_ensures(parse_header, (buf,), r),
        24 <= buf@.len(),
        buf@[0] == 'l' as u8,
        buf@[3] == 1,
        wire_number(buf@, 8, 'l' as u8) != 0,
        wire_number(buf@, 12, 'l' as u8) == 8,
        buf@[16] == code,
        buf@[17] == 1,
        buf@[18] == 'u' as u8,
        buf@[19] == 0,
        code == 5 || code == 9,
    ensures
        r matches Ok(h) && {
            &&& h.reply_serial is Some <==> code == 5
            &&& h.unix_fds is Some <==> code == 9
            &&& code == 5 ==> h.reply_serial->0 == wire_number(buf@, 20, 'l' as u8)
            &&& code == 9 ==> h.unix_fds->0 == wire_number(buf@, 20, 'l' as u8)
            &&& h.path is None && h.interface is None && h.member is None
            &&& h.error_name is None && h.destination is None && h.sender is None
            &&& h.signature is None
        },
{
    lemma_wire_number(buf@, 12);
    lemma_wire_number(buf@, 8);
    lemma_wire_number(buf@, 20);
    let b = buf@;
    let n = Endian::Little.u32_at(b, 20);
    let f = FieldModel { code, value: ValueModel::Number(n) };
    lemma_one_byte_text(b.subrange(18, 19), 'u');
    assert(signature_at(b, 17, 24) == Ok::<(Seq<char>, int), Fault>((seq!['u'], 20)));
    assert(number_at(b, 20, 24, Endian::Little) == Ok::<(u32, int), Fault>((n, 24)));
    assert(field_at(b, 16, 24, Endian::Little) == Ok::<(FieldModel, int), Fault>((f, 24)));
    lemma_one_field(b, f, 24);
    if let Ok(h) = r {
        lemma_gathered(h, b, f);
    }
}

/// A byte below 128 is one character.
proof fn lemma_one_byte_text(bytes: Seq<u8>, c: char)
    requires
        bytes.len() == 1,
        bytes[0] == c as u8,
        (c as u32) < 128,
    ensures
        valid_utf8(bytes),
        decode_utf8(bytes) == seq![c],
{
    assert(is_ascii_chars(seq![c]));
    is_ascii_chars_encode_utf8(seq![c]);
    assert(encode_utf8(seq![c]) =~= bytes);
    encode_utf8_valid_utf8(seq![c]);
    encode_utf8_decode_utf8(seq![c]);
}

proof fn lemma_one_field(b: Seq<u8>, f: FieldModel, end: int)
    requires
        24 <= end <= b.len(),
        end <= usize::MAX,
        b[0] == 0x6c,
        b[3] == 1,
        Endian::Little.u32_at(b, 8) != 0,
        16 + Endian::Little.u32_at(b, 12) == end,
        field_at(b, 16, end, Endian::Little) == Ok::<(FieldModel, int), Fault>((f, end)),
    ensures
        header_of(b) == Ok::<HeaderModel, Fault>(gather(b, Endian::Little, seq![f])),
{
    reveal(fields_of);
    assert(fields_of(b, end, end, Endian::Little) == Ok::<Seq<FieldModel>, Fault>(seq![]));
    assert(align_up(16, 8) == 16);
    assert(seq![f] + Seq::<FieldModel>::empty() =~= seq![f]);
    assert(fields_of(b, 16, end, Endian::Little) == Ok::<Seq<FieldModel>, Fault>(seq![f]));
}

proof fn lemma_gathered(h: Header, b: Seq<u8>, f: FieldModel)
    requires
        h@ == gather(b, Endian::Little, seq![f]),
    ensures
        h@ == with_field(gather(b, Endian::Little, seq![]), f),
        text_of(h.path) == h@.path,
        text_of(h.interface) == h@.interface,
        text_of(h.member) == h@.member,
        text_of(h.error_name) == h@.error_name,
        text_of(h.destination) == h@.destination,
        text_of(h.sender) == h@.sender,
        text_of(h.signature) == h@.signature,
        h.reply_serial == h@.reply_serial,
        h.unix_fds == h@.unix_fds,
{
    lemma_gather_push(b, Endian::Little, seq![], f);
    assert(Seq::<FieldModel>::empty().push(f) =~= seq![f]);
}

/// A number of four bytes is read with its first byte lowest, or highest in the
/// other byte order: reversing the bytes changes the order.
pub proof fn byte_orders_mirror_each_other(
    bytes: &[u8],
    mirrored: &[u8],
    little: u32,
    big: u32,
    little_mirrored: u32,
)
    requires
        4 <= bytes@.len(),
        call_ensures(Endian::read_u32, (Endian::Little, bytes), little),
        call_ensures(Endian::read_u32, (Endian::Big, bytes), big),
        call_ensures(Endian::read_u32, (Endian::Little, mirrored), little_mirrored),
        mirrored@ == seq![bytes@[3], bytes@[2], bytes@[1], bytes@[0]],
    ensures
        little == bytes@[0] + 256 * bytes@[1] + 65536 * bytes@[2] + 16777216 * bytes@[3],
        big == bytes@[3] + 256 * bytes@[2] + 65536 * bytes@[1] + 16777216 * bytes@[0],
        big == little_mirrored,
{
}

/// The four kinds of messages have the numbers one to four; every other number is
/// no kind.
pub proof fn kinds_are_numbered(b: u8, r: MessageType)
    requires
        call_ensures(MessageType::from_byte, (b,), r),
    ensures
        (r == MessageType::MethodCall) == (b == 1),
        (r == MessageType::MethodReturn) == (b == 2),
        (r == MessageType::Error) == (b == 3),
        (r == MessageType::Signal) == (b == 4),
        (r == MessageType::Invalid) == (b == 0 || b > 4),
{
}

/// A message whose header is in order is exactly as long as its fixed part and its
/// fields, filled up to a multiple of eight, and its body. One that is larger than
/// a hundred and twenty-eight mebibytes is refused with its size, and one whose
/// size cannot be counted as such. `total` is that size.
pub proof fn sizes_are_exact(buf: &[u8], r: Result<Option<usize>, MessageError>, total: int)
    requires
        call_ensures(bytes_needed, (buf,), r),
        buf@.len() >= 16,
        buf@[0] == 'l' as u8 || buf@[0] == 'B' as u8,
        buf@[3] == 1,
        ({
            let fields = wire_number(buf@, 12, buf@[0]);
            let body = wire_number(buf@, 4, buf@[0]);
            &&& 16 + fields + body <= total < 16 + fields + body + 8
            &&& (total - body) % 8 == 0
        }),
    ensures
        ({
            let counted = 16 + wire_number(buf@, 12, buf@[0]) + 7 <= usize::MAX && total
                <= usize::MAX;
            &&& counted && total <= 134217728 ==> (r matches Ok(Some(n)) && n == total)
            &&& counted && total > 134217728 ==> (r matches Err(e) && e@
                == Fault::MessageTooLarge(total))
            &&& !counted ==> (r matches Err(e) && e@ == Fault::SizeOverflow)
        }),
{
    lemma_wire_number(buf@, 12);
    lemma_wire_number(buf@, 4);
}

} // verus!
