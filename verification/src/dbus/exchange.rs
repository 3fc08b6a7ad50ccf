//! What building a message and reading it on the other side promise.

use crate::dbus::encode::{
    body_bool, body_empty, body_oay, body_string, fields_bytes, frame, le32, padding,
    string_bytes, write_string, Body, Error, MethodReturn, Signal,
};
use crate::dbus::laws::{
    error_round_trip, method_return_round_trip, signal_round_trip, slice_text, string_round_trip,
};
use crate::dbus::message::{
    parse_header, read_string, text_of, wire_number, Endian, Header, MessageError, MessageType,
};
use vstd::prelude::*;
use vstd::utf8::*;

verus! {

/// These bytes are a message of this type: little endian, version one, without
/// flags, with the length of the body and the serial, and with the body at its
/// end, on a multiple of eight.
pub open spec fn is_message(
    bytes: Seq<u8>,
    msg_type: u8,
    serial: u32,
    body: Seq<u8>,
) -> bool {
    &&& bytes.len() >= 16 + body.len()
    &&& bytes[0] == 'l' as u8 && bytes[1] == msg_type && bytes[2] == 0 && bytes[3] == 1
    &&& wire_number(bytes, 4, 'l' as u8) == body.len()
    &&& wire_number(bytes, 8, 'l' as u8) == serial
    &&& (bytes.len() - body.len()) % 8 == 0
    &&& bytes.skip(bytes.len() - body.len()) == body
}

proof fn lemma_is_message(msg_type: u8, serial: u32, fields: Seq<u8>, body: Seq<u8>)
    requires
        body.len() <= u32::MAX,
        fields.len() <= u32::MAX,
    ensures
        is_message(frame(msg_type, serial, fields, body), msg_type, serial, body),
{
    let start = seq!['l' as u8, msg_type, 0u8, 1u8];
    let a = le32(body.len() as u32);
    let b = le32(serial);
    let c = le32(fields.len() as u32);
    let pad = padding(fields.len(), 8);
    lemma_le32_number(body.len() as u32);
    lemma_le32_number(serial);
    lemma_le32_number(fields.len() as u32);
    assert((16 + fields.len() + pad.len()) % 8 == 0);
    lemma_parts(start, a, b, c, fields, pad, body);
}

/// The parts of a message stand one behind the other.
proof fn lemma_parts(
    start: Seq<u8>,
    a: Seq<u8>,
    b: Seq<u8>,
    c: Seq<u8>,
    fields: Seq<u8>,
    pad: Seq<u8>,
    body: Seq<u8>,
)
    requires
        start.len() == 4,
        a.len() == 4,
        b.len() == 4,
        c.len() == 4,
    ensures
        ({
            let bytes = start + a + b + c + fields + pad + body;
            &&& bytes.len() == 16 + fields.len() + pad.len() + body.len()
            &&& bytes[0] == start[0] && bytes[1] == start[1] && bytes[2] == start[2] && bytes[3]
                == start[3]
            &&& wire_number(bytes, 4, 'l' as u8) == wire_number(a, 0, 'l' as u8)
            &&& wire_number(bytes, 8, 'l' as u8) == wire_number(b, 0, 'l' as u8)
            &&& bytes.skip(bytes.len() - body.len()) == body
        }),
{
    let bytes = start + a + b + c + fields + pad + body;
    assert(bytes.skip(bytes.len() - body.len()) =~= body);
    assert(bytes[4] == a[0] && bytes[5] == a[1] && bytes[6] == a[2] && bytes[7] == a[3]);
    assert(bytes[8] == b[0] && bytes[9] == b[1] && bytes[10] == b[2] && bytes[11] == b[3]);
}

proof fn lemma_le32_number(n: u32)
    ensures
        le32(n).len() == 4,
        wire_number(le32(n), 0, 'l' as u8) == n,
{
    let a = (n % 0x100) as u8;
    let b = (n / 0x100 % 0x100) as u8;
    let c = (n / 0x1_0000 % 0x100) as u8;
    let d = (n / 0x100_0000) as u8;
    assert(a + 256 * b + 65536 * c + 16777216 * d == n);
}

/// A method return is answered to the call it names: parsed again, it gives its
/// own serial, the serial of the call and the addresses, and its bytes end in the
/// body.
pub proof fn method_returns_answer_their_call(
    m: MethodReturn,
    r: Vec<u8>,
    bytes: &[u8],
    h: Result<Header, MessageError>,
)
    requires
        call_ensures(MethodReturn::encode, (&m,), r),
        call_ensures(parse_header, (bytes,), h),
        bytes@ == r@,
        m.our_serial != 0,
        encode_utf8(m.body.signature@).len() <= u8::MAX,
        fields_bytes(m.fields()).len() <= u32::MAX,
        16 + fields_bytes(m.fields()).len() + 7 <= usize::MAX,
        m.body.bytes@.len() <= u32::MAX,
    ensures
        is_message(r@, 2, m.our_serial, m.body.bytes@),
        (h matches Ok(h) && {
            &&& h.msg_type == MessageType::MethodReturn
            &&& h.serial == m.our_serial
            &&& h.reply_serial == Some(m.reply_to_serial)
            &&& h.body_len == m.body.bytes@.len()
            &&& text_of(h.destination) == slice_text(m.destination)
            &&& text_of(h.sender) == slice_text(m.sender)
            &&& text_of(h.signature) == if m.body.signature@.len() > 0 {
                Some(m.body.signature@)
            } else {
                None
            }
            &&& h.path is None && h.interface is None && h.member is None
            &&& h.error_name is None && h.unix_fds is None
        }),
{
    method_return_round_trip(m, seq![]);
    assert(r@ + Seq::<u8>::empty() =~= r@);
    lemma_is_message(2, m.our_serial, fields_bytes(m.fields()), m.body.bytes@);
    if let Ok(h) = h {
        lemma_header_parts(h);
    }
}

/// A signal, parsed again, gives its own serial, its path, interface and member
/// and the addresses, and its bytes end in the body.
pub proof fn signals_say_what_happened(
    m: Signal,
    r: Vec<u8>,
    bytes: &[u8],
    h: Result<Header, MessageError>,
)
    requires
        call_ensures(Signal::encode, (&m,), r),
        call_ensures(parse_header, (bytes,), h),
        bytes@ == r@,
        m.our_serial != 0,
        encode_utf8(m.body.signature@).len() <= u8::MAX,
        fields_bytes(m.fields()).len() <= u32::MAX,
        16 + fields_bytes(m.fields()).len() + 7 <= usize::MAX,
        m.body.bytes@.len() <= u32::MAX,
    ensures
        is_message(r@, 4, m.our_serial, m.body.bytes@),
        (h matches Ok(h) && {
            &&& h.msg_type == MessageType::Signal
            &&& h.serial == m.our_serial
            &&& h.body_len == m.body.bytes@.len()
            &&& text_of(h.path) == Some(m.path@)
            &&& text_of(h.interface) == Some(m.interface@)
            &&& text_of(h.member) == Some(m.member@)
            &&& text_of(h.destination) == slice_text(m.destination)
            &&& text_of(h.sender) == slice_text(m.sender)
            &&& text_of(h.signature) == if m.body.signature@.len() > 0 {
                Some(m.body.signature@)
            } else {
                None
            }
            &&& h.error_name is None && h.reply_serial is None && h.unix_fds is None
        }),
{
    signal_round_trip(m, seq![]);
    assert(r@ + Seq::<u8>::empty() =~= r@);
    lemma_is_message(4, m.our_serial, fields_bytes(m.fields()), m.body.bytes@);
    if let Ok(h) = h {
        lemma_header_parts(h);
    }
}

/// An error is answered to the call it names: parsed again, it gives its own
/// serial, the serial of the call, the name of the error and the addresses, and
/// its bytes end in the body.
pub proof fn errors_answer_their_call(
    m: Error,
    r: Vec<u8>,
    bytes: &[u8],
    h: Result<Header, MessageError>,
)
    requires
        call_ensures(Error::encode, (&m,), r),
        call_ensures(parse_header, (bytes,), h),
        bytes@ == r@,
        m.our_serial != 0,
        encode_utf8(m.body.signature@).len() <= u8::MAX,
        fields_bytes(m.fields()).len() <= u32::MAX,
        16 + fields_bytes(m.fields()).len() + 7 <= usize::MAX,
        m.body.bytes@.len() <= u32::MAX,
    ensures
        is_message(r@, 3, m.our_serial, m.body.bytes@),
        (h matches Ok(h) && {
            &&& h.msg_type == MessageType::Error
            &&& h.serial == m.our_serial
            &&& h.reply_serial == Some(m.reply_to_serial)
            &&& text_of(h.error_name) == Some(m.error_name@)
            &&& h.body_len == m.body.bytes@.len()
            &&& text_of(h.destination) == slice_text(m.destination)
            &&& text_of(h.sender) == slice_text(m.sender)
            &&& text_of(h.signature) == if m.body.signature@.len() > 0 {
                Some(m.body.signature@)
            } else {
                None
            }
            &&& h.path is None && h.interface is None && h.member is None && h.unix_fds is None
        }),
{
    error_round_trip(m, seq![]);
    assert(r@ + Seq::<u8>::empty() =~= r@);
    lemma_is_message(3, m.our_serial, fields_bytes(m.fields()), m.body.bytes@);
    if let Ok(h) = h {
        lemma_header_parts(h);
    }
}

proof fn lemma_header_parts(h: Header)
    ensures
        h@.msg_type == h.msg_type,
        h@.serial == h.serial,
        h@.body_len == h.body_len,
        h@.reply_serial == h.reply_serial,
        h@.unix_fds == h.unix_fds,
        h@.path == text_of(h.path),
        h@.interface == text_of(h.interface),
        h@.member == text_of(h.member),
        h@.error_name == text_of(h.error_name),
        h@.destination == text_of(h.destination),
        h@.sender == text_of(h.sender),
        h@.signature == text_of(h.signature),
{
}

/// A string that was written reads back, whatever follows it, and reading goes on
/// behind it; what stood in front of it stays.
pub proof fn written_strings_read_back(
    buf: &mut Vec<u8>,
    s: &str,
    bytes: &[u8],
    rest: Seq<u8>,
    off: &mut usize,
    end: usize,
    r: Result<String, MessageError>,
)
    requires
        call_ensures(write_string, (buf, s), ()),
        call_ensures(read_string, (bytes, off, end, Endian::Little), r),
        bytes@ == final(buf)@ + rest,
        *old(off) == old(buf)@.len(),
        encode_utf8(s@).len() <= u32::MAX,
        final(buf)@.len() <= end <= bytes@.len(),
    ensures
        (r matches Ok(t) && t@ == s@),
        *final(off) == final(buf)@.len(),
        final(buf)@.take(old(buf)@.len() as int) == old(buf)@,
{
    string_round_trip(old(buf)@, s@, rest, end as int);
    assert(final(buf)@.take(old(buf)@.len() as int) =~= old(buf)@);
}

/// A string on the wire is zeros up to a multiple of four, its length in bytes, its
/// bytes and a zero.
pub proof fn strings_are_laid_out(buf: &mut Vec<u8>, s: &str)
    requires
        call_ensures(write_string, (buf, s), ()),
        encode_utf8(s@).len() <= u32::MAX,
    ensures
        ({
            let before = old(buf)@.len() as int;
            let n = encode_utf8(s@).len() as int;
            let at = final(buf)@.len() - n - 5;
            &&& before <= at < before + 4
            &&& at % 4 == 0
            &&& forall|i: int| before <= i < at ==> final(buf)@[i] == 0
            &&& wire_number(final(buf)@, at, 'l' as u8) == n
            &&& final(buf)@.subrange(at + 4, at + 4 + n) == encode_utf8(s@)
            &&& final(buf)@[at + 4 + n] == 0
            &&& final(buf)@.take(before) == old(buf)@
        }),
{
    let before = old(buf)@;
    let text = encode_utf8(s@);
    let n = text.len() as int;
    let pad = padding(before.len(), 4);
    let at = final(buf)@.len() - n - 5;
    lemma_le32_number(n as u32);
    assert(at == before.len() + pad.len());
    let w = final(buf)@.subrange(at, at + 4);
    assert(w =~= le32(n as u32));
    assert(final(buf)@[at] == w[0] && final(buf)@[at + 1] == w[1] && final(buf)@[at + 2] == w[2]
        && final(buf)@[at + 3] == w[3]);
    assert(final(buf)@.subrange(at + 4, at + 4 + n) =~= text);
    assert(final(buf)@.take(before.len() as int) =~= before);
}

/// Bodies hold what they are made of: a boolean is a number, a string is a string
/// at the start, and the reply that creates an input context is its path and then
/// its identifier, behind its length on a multiple of four.
pub proof fn bodies_hold_their_values(
    v: bool,
    b: Body,
    s: &str,
    text: Body,
    string: &mut Vec<u8>,
    path: &str,
    id: &[u8],
    reply: Body,
    object: &mut Vec<u8>,
    none: Body,
    empty: bool,
)
    requires
        call_ensures(body_bool, (v,), b),
        call_ensures(body_string, (s,), text),
        call_ensures(write_string, (string, s), ()),
        old(string)@.len() == 0,
        call_ensures(body_oay, (path, id), reply),
        call_ensures(write_string, (object, path), ()),
        old(object)@.len() == 0,
        id@.len() <= u32::MAX,
        call_ensures(body_empty, (), none),
        call_ensures(Body::is_empty, (&text,), empty),
    ensures
        b.signature@ == seq!['b'],
        b.bytes@ == seq![if v { 1u8 } else { 0u8 }, 0u8, 0u8, 0u8],
        text.signature@ == seq!['s'],
        text.bytes@ == final(string)@,
        reply.signature@ == seq!['(', 'o', 'a', 'y', ')'],
        ({
            let first = final(object)@;
            let at = reply.bytes@.len() - id@.len() - 4;
            &&& first.len() <= at < first.len() + 4
            &&& at % 4 == 0
            &&& reply.bytes@.take(first.len() as int) == first
            &&& wire_number(reply.bytes@, at, 'l' as u8) == id@.len()
            &&& reply.bytes@.skip(at + 4) == id@
        }),
        none.signature@.len() == 0,
        none.bytes@.len() == 0,
        !empty,
{
    let nothing = Seq::<u8>::empty();
    assert(old(string)@ =~= nothing && old(object)@ =~= nothing);
    assert(nothing + string_bytes(0, s@) =~= string_bytes(0, s@));
    assert(nothing + string_bytes(0, path@) =~= string_bytes(0, path@));
    let first = final(object)@;
    let pad = padding(first.len(), 4);
    let at = reply.bytes@.len() - id@.len() - 4;
    lemma_le32_number(id@.len() as u32);
    assert(at == first.len() + pad.len());
    assert(reply.bytes@.take(first.len() as int) =~= first);
    let w = reply.bytes@.subrange(at, at + 4);
    assert(w =~= le32(id@.len() as u32));
    assert(reply.bytes@[at] == w[0] && reply.bytes@[at + 1] == w[1] && reply.bytes@[at + 2] == w[2]
        && reply.bytes@[at + 3] == w[3]);
    assert(reply.bytes@.skip(at + 4) =~= id@);
    assert(b.bytes@ =~= seq![if v { 1u8 } else { 0u8 }, 0u8, 0u8, 0u8]);
}

} // verus!
