//! What building a message and parsing it again promise together.

use crate::dbus::encode::{
    field_bytes, field_head, fields_bytes, frame, le32, optional_text, padding, signature_bytes,
    signature_field, string_bytes, Error, MethodReturn, Signal, TYPE_ERROR, TYPE_METHOD_RETURN,
    TYPE_SIGNAL,
};
use crate::dbus::message::{
    align_up, endian_of, field_at, field_tag, fields_of, header_of, join_bytes, last_number,
    last_text, last_value, message_size, signature_at, string_at, Endian, Fault, FieldModel,
    HeaderModel, MessageType, ValueModel, FIELD_DESTINATION, FIELD_ERROR_NAME, FIELD_INTERFACE,
    FIELD_MEMBER, FIELD_PATH, FIELD_REPLY_SERIAL, FIELD_SENDER, FIELD_SIGNATURE, FIELD_UNIX_FDS,
    FIXED_HEADER_LEN, MAX_MESSAGE_SIZE,
};
use vstd::prelude::*;
use vstd::utf8::*;

verus! {

/// A header field that the wire format can carry: a known code, a value of the
/// type that the code has, a length that fits its length prefix.
pub open spec fn encodable(f: FieldModel) -> bool {
    match field_tag(f.code) {
        None => false,
        Some(tag) => match f.value {
            ValueModel::Text(s) => (tag == 'o' || tag == 's') && encode_utf8(s).len() <= u32::MAX,
            ValueModel::Number(_) => tag == 'u',
            ValueModel::Signature(s) => tag == 'g' && encode_utf8(s).len() <= u8::MAX,
        },
    }
}

/// Four little-endian bytes read back as the number they were made of.
proof fn lemma_le32_reads_back(n: u32)
    ensures
        join_bytes(le32(n)[0], le32(n)[1], le32(n)[2], le32(n)[3]) == n,
{
}

/// Padding to a multiple of eight, counted from the start of the fields array
/// or of the message.
proof fn lemma_align_eight(n: nat)
    ensures
        align_up(16int + n, 8) == 16 + align_up(n as int, 8),
        (16 + align_up(n as int, 8)) % 8 == 0,
        n + padding(n, 8).len() == align_up(n as int, 8),
{
}

proof fn lemma_le32_len(n: u32)
    ensures
        le32(n).len() == 4,
{
}

/// A number in the bytes reads back as itself.
proof fn lemma_u32_at(buf: Seq<u8>, off: int, n: u32)
    requires
        0 <= off,
        off + 4 <= buf.len(),
        buf.subrange(off, off + 4) == le32(n),
    ensures
        Endian::Little.u32_at(buf, off) == n,
{
    let w = buf.subrange(off, off + 4);
    assert(w[0] == buf[off] && w[1] == buf[off + 1] && w[2] == buf[off + 2] && w[3] == buf[off
        + 3]);
    lemma_le32_reads_back(n);
}

/// A string that was appended to some bytes reads back from where they ended:
/// the padding is skipped, and reading goes on behind the NUL, whatever follows
/// it.
pub proof fn string_round_trip(before: Seq<u8>, s: Seq<char>, rest: Seq<u8>, end: int)
    requires
        encode_utf8(s).len() <= u32::MAX,
        before.len() + string_bytes(before.len(), s).len() <= usize::MAX,
        before.len() + string_bytes(before.len(), s).len() <= end,
        end <= before.len() + string_bytes(before.len(), s).len() + rest.len(),
    ensures
        string_at(
            before + string_bytes(before.len(), s) + rest,
            before.len() as int,
            end,
            Endian::Little,
        ) == Ok::<(Seq<char>, int), Fault>(
            (s, (before.len() + string_bytes(before.len(), s).len()) as int),
        ),
{
    let written = before + string_bytes(before.len(), s);
    let buf = written + rest;
    let text = encode_utf8(s);
    let start = align_up(before.len() as int, 4) + 4;
    assert(before.len() + padding(before.len(), 4).len() == start - 4);
    assert(buf.subrange(start - 4, start) =~= le32(text.len() as u32));
    lemma_u32_at(buf, start - 4, text.len() as u32);
    assert(written.len() == start + text.len() + 1);
    assert(buf[written.len() - 1] == 0);
    assert(buf.subrange(start, written.len() - 1) =~= text);
    encode_utf8_valid_utf8(s);
    encode_utf8_decode_utf8(s);
}

/// A field without the padding in front of it.
#[verifier::opaque]
spec fn packed(f: FieldModel) -> Seq<u8> {
    seq![f.code, 1u8, field_tag(f.code)->0 as u8, 0u8] + match f.value {
        ValueModel::Text(s) => le32(encode_utf8(s).len() as u32) + encode_utf8(s) + seq![0u8],
        ValueModel::Number(n) => le32(n),
        ValueModel::Signature(s) => signature_bytes(s),
    }
}

/// The encoding of a type tag is the tag itself.
proof fn lemma_tag_bytes(code: u8)
    requires
        field_tag(code) is Some,
    ensures
        encode_utf8(seq![field_tag(code)->0]) == seq![field_tag(code)->0 as u8],
{
    let tag = seq![field_tag(code)->0];
    is_ascii_chars_encode_utf8(tag);
    assert(encode_utf8(tag) =~= seq![field_tag(code)->0 as u8]);
}

#[verifier::spinoff_prover]
#[verifier::rlimit(40)]
proof fn lemma_field_bytes_packed(pos: nat, f: FieldModel)
    requires
        encodable(f),
    ensures
        field_bytes(pos, f) == padding(pos, 8) + packed(f),
        (pos + padding(pos, 8).len()) % 8 == 0,
        pos + padding(pos, 8).len() == align_up(pos as int, 8),
        packed(f).len() >= 5,
{
    reveal(packed);
    lemma_tag_bytes(f.code);
    let tag = seq![field_tag(f.code)->0];
    let head = field_head(pos, f.code, tag);
    assert(head =~= padding(pos, 8) + seq![f.code, 1u8, field_tag(f.code)->0 as u8, 0u8]);
    assert(padding(pos + head.len(), 4) =~= seq![]);
    assert(field_bytes(pos, f) =~= padding(pos, 8) + packed(f));
}

/// A packed field at a multiple of eight is read as that field.
proof fn lemma_packed_reads_back(buf: Seq<u8>, at: int, end: int, f: FieldModel)
    requires
        encodable(f),
        0 <= at,
        at % 8 == 0,
        at + packed(f).len() <= end <= buf.len(),
        end + 7 <= usize::MAX,
        buf.subrange(at, at + packed(f).len()) == packed(f),
    ensures
        field_at(buf, at, end, Endian::Little) == Ok::<(FieldModel, int), Fault>(
            (f, at + packed(f).len()),
        ),
{
    reveal(packed);
    let p = packed(f);
    let tag = field_tag(f.code)->0;
    assert forall|i: int| 0 <= i < p.len() implies #[trigger] buf[at + i] == p[i] by {
        assert(buf.subrange(at, at + p.len())[i] == p[i]);
    }
    assert(buf[at + 0] == p[0]);
    assert(buf[at + 1] == p[1]);
    assert(buf[at + 2] == p[2]);
    assert(buf[at + 3] == p[3]);
    lemma_tag_bytes(f.code);
    assert(buf.subrange(at + 2, at + 3) =~= encode_utf8(seq![tag]));
    encode_utf8_valid_utf8(seq![tag]);
    encode_utf8_decode_utf8(seq![tag]);
    assert(signature_at(buf, at + 1, end) == Ok::<(Seq<char>, int), Fault>((seq![tag], at + 4)));
    match f.value {
        ValueModel::Text(s) => {
            let n = encode_utf8(s).len() as u32;
            assert(buf[at + 4] == p[4] && buf[at + 5] == p[5] && buf[at + 6] == p[6] && buf[at + 7]
                == p[7]);
            assert(p[4] == le32(n)[0] && p[5] == le32(n)[1] && p[6] == le32(n)[2] && p[7]
                == le32(n)[3]);
            lemma_le32_reads_back(n);
            assert(Endian::Little.u32_at(buf, at + 4) == n);
            assert(buf[at + (p.len() - 1)] == p[p.len() - 1]);
            assert(buf.subrange(at + 8, at + p.len() - 1) =~= encode_utf8(s)) by {
                assert forall|i: int| 0 <= i < encode_utf8(s).len() implies buf.subrange(
                    at + 8,
                    at + p.len() - 1,
                )[i] == encode_utf8(s)[i] by {
                    assert(buf[at + (8 + i)] == p[8 + i]);
                }
            }
            encode_utf8_valid_utf8(s);
            encode_utf8_decode_utf8(s);
        },
        ValueModel::Number(n) => {
            assert(buf[at + 4] == p[4] && buf[at + 5] == p[5] && buf[at + 6] == p[6] && buf[at + 7]
                == p[7]);
            assert(p[4] == le32(n)[0] && p[5] == le32(n)[1] && p[6] == le32(n)[2] && p[7]
                == le32(n)[3]);
            lemma_le32_reads_back(n);
        },
        ValueModel::Signature(s) => {
            assert(buf[at + 4] == p[4]);
            assert(buf[at + (p.len() - 1)] == p[p.len() - 1]);
            assert(buf.subrange(at + 5, at + p.len() - 1) =~= encode_utf8(s)) by {
                assert forall|i: int| 0 <= i < encode_utf8(s).len() implies buf.subrange(
                    at + 5,
                    at + p.len() - 1,
                )[i] == encode_utf8(s)[i] by {
                    assert(buf[at + (5 + i)] == p[5 + i]);
                }
            }
            encode_utf8_valid_utf8(s);
            encode_utf8_decode_utf8(s);
        },
    }
}

/// The first `k` fields are written first.
proof fn lemma_fields_prefix(fields: Seq<FieldModel>, k: int)
    requires
        0 <= k <= fields.len(),
    ensures
        fields_bytes(fields.take(k)).len() <= fields_bytes(fields).len(),
        fields_bytes(fields).take(fields_bytes(fields.take(k)).len() as int) == fields_bytes(
            fields.take(k),
        ),
    decreases fields.len(),
{
    let whole = fields_bytes(fields);
    if k == fields.len() {
        assert(fields.take(k) =~= fields);
        assert(whole.take(whole.len() as int) =~= whole);
    } else {
        let shorter = fields.drop_last();
        lemma_fields_prefix(shorter, k);
        assert(shorter.take(k) =~= fields.take(k));
        let n = fields_bytes(fields.take(k)).len() as int;
        assert(whole.take(n) =~= fields_bytes(shorter).take(n));
    }
}

/// Field `k` stands packed behind the first `k` fields and their padding.
proof fn lemma_field_in_place(buf: Seq<u8>, fields: Seq<FieldModel>, k: int)
    requires
        0 <= k < fields.len(),
        encodable(fields[k]),
        16 + fields_bytes(fields).len() <= buf.len(),
        buf.subrange(16, 16int + fields_bytes(fields).len()) == fields_bytes(fields),
    ensures
        ({
            let at = 16 + align_up(fields_bytes(fields.take(k)).len() as int, 8);
            &&& at % 8 == 0
            &&& align_up(16int + fields_bytes(fields.take(k)).len(), 8) == at
            &&& at + packed(fields[k]).len() == 16 + fields_bytes(fields.take(k + 1)).len()
            &&& fields_bytes(fields.take(k + 1)).len() <= fields_bytes(fields).len()
            &&& packed(fields[k]).len() >= 5
            &&& buf.subrange(at, at + packed(fields[k]).len()) == packed(fields[k])
        }),
{
    let f = fields[k];
    let whole = fields_bytes(fields);
    let before = fields_bytes(fields.take(k));
    let after = fields_bytes(fields.take(k + 1));
    assert(after == before + field_bytes(before.len(), f)) by {
        assert(fields.take(k + 1).drop_last() =~= fields.take(k));
        assert(fields.take(k + 1).last() == f);
    }
    lemma_fields_prefix(fields, k + 1);
    lemma_field_bytes_packed(before.len(), f);
    lemma_align_eight(before.len());
    lemma_locate(buf, whole, after, before, padding(before.len(), 8), packed(f));
}

/// Where the last part of a prefix of the fields array stands in the message.
proof fn lemma_locate(
    buf: Seq<u8>,
    whole: Seq<u8>,
    after: Seq<u8>,
    before: Seq<u8>,
    pad: Seq<u8>,
    p: Seq<u8>,
)
    requires
        16 + whole.len() <= buf.len(),
        buf.subrange(16, 16int + whole.len()) == whole,
        after.len() <= whole.len(),
        whole.take(after.len() as int) == after,
        after == before + (pad + p),
    ensures
        buf.subrange(16int + before.len() + pad.len(), 16int + after.len()) == p,
{
    assert forall|i: int| 0 <= i < p.len() implies buf.subrange(
        16int + before.len() + pad.len(),
        16int + after.len(),
    )[i] == p[i] by {
        let j = before.len() + pad.len() + i;
        assert(buf[16 + j] == buf.subrange(16, 16int + whole.len())[j]);
        assert(whole[j] == whole.take(after.len() as int)[j]);
        assert((pad + p)[pad.len() + i] == p[i]);
    }
    assert(buf.subrange(16int + before.len() + pad.len(), 16int + after.len()) =~= p);
}

/// One field read in front of the others.
proof fn lemma_fields_of_step(
    buf: Seq<u8>,
    off: int,
    end: int,
    endian: Endian,
    f: FieldModel,
    next: int,
    rest: Seq<FieldModel>,
)
    requires
        off <= align_up(off, 8) < end,
        end + 7 <= usize::MAX,
        field_at(buf, align_up(off, 8), end, endian) == Ok::<(FieldModel, int), Fault>((f, next)),
        fields_of(buf, next, end, endian) == Ok::<Seq<FieldModel>, Fault>(rest),
    ensures
        fields_of(buf, off, end, endian) == Ok::<Seq<FieldModel>, Fault>(seq![f] + rest),
{
    reveal(fields_of);
}

/// From the end of the first `k` fields on, the parser reads the others.
proof fn lemma_fields_read_back(buf: Seq<u8>, fields: Seq<FieldModel>, k: int)
    requires
        forall|i: int| 0 <= i < fields.len() ==> encodable(#[trigger] fields[i]),
        0 <= k <= fields.len(),
        16 + fields_bytes(fields).len() <= buf.len(),
        16 + fields_bytes(fields).len() + 7 <= usize::MAX,
        buf.subrange(16, 16int + fields_bytes(fields).len()) == fields_bytes(fields),
    ensures
        fields_of(
            buf,
            16int + fields_bytes(fields.take(k)).len(),
            16int + fields_bytes(fields).len(),
            Endian::Little,
        ) == Ok::<Seq<FieldModel>, Fault>(fields.skip(k)),
    decreases fields.len() - k,
{
    let end = 16int + fields_bytes(fields).len();
    let off = 16int + fields_bytes(fields.take(k)).len();
    if k == fields.len() {
        reveal(fields_of);
        assert(fields.take(k) =~= fields);
        assert(fields.skip(k) =~= seq![]);
    } else {
        let next = 16int + fields_bytes(fields.take(k + 1)).len();
        lemma_field_in_place(buf, fields, k);
        lemma_packed_reads_back(buf, align_up(off, 8), end, fields[k]);
        lemma_fields_read_back(buf, fields, k + 1);
        lemma_fields_of_step(
            buf,
            off,
            end,
            Endian::Little,
            fields[k],
            next,
            fields.skip(k + 1),
        );
        assert(fields.skip(k) =~= seq![fields[k]] + fields.skip(k + 1));
    }
}

/// The fixed part of a frame reads back, whatever follows the frame.
proof fn lemma_frame_prefix(
    msg_type: u8,
    serial: u32,
    fields: Seq<u8>,
    body: Seq<u8>,
    rest: Seq<u8>,
)
    requires
        fields.len() <= u32::MAX,
        body.len() <= u32::MAX,
    ensures
        ({
            let buf = frame(msg_type, serial, fields, body) + rest;
            &&& 16 + fields.len() <= buf.len()
            &&& frame(msg_type, serial, fields, body).len() == align_up(16int + fields.len(), 8)
                + body.len()
            &&& buf[0] == 0x6c
            &&& buf[1] == msg_type
            &&& buf[2] == 0
            &&& buf[3] == 1
            &&& Endian::Little.u32_at(buf, 4) == body.len()
            &&& Endian::Little.u32_at(buf, 8) == serial
            &&& Endian::Little.u32_at(buf, 12) == fields.len()
            &&& buf.subrange(16, 16int + fields.len()) == fields
        }),
{
    let n = body.len() as u32;
    let k = fields.len() as u32;
    let start = seq![0x6cu8, msg_type, 0u8, 1u8];
    let s1 = start + le32(n);
    let s2 = s1 + le32(serial);
    let s3 = s2 + le32(k);
    let s4 = s3 + fields;
    let s5 = s4 + padding(fields.len(), 8);
    let s6 = s5 + body;
    let buf = frame(msg_type, serial, fields, body) + rest;
    assert(buf == s6 + rest);
    lemma_le32_len(n);
    lemma_le32_len(serial);
    lemma_le32_len(k);
    lemma_align_eight(fields.len());
    lemma_right(start, le32(n));
    lemma_right(s1, le32(serial));
    lemma_right(s2, le32(k));
    lemma_right(s3, fields);
    lemma_left(s1, le32(serial), 4, 8);
    lemma_left(s2, le32(k), 4, 8);
    lemma_left(s3, fields, 4, 8);
    lemma_left(s4, padding(fields.len(), 8), 4, 8);
    lemma_left(s5, body, 4, 8);
    lemma_left(s6, rest, 4, 8);
    lemma_left(s2, le32(k), 8, 12);
    lemma_left(s3, fields, 8, 12);
    lemma_left(s4, padding(fields.len(), 8), 8, 12);
    lemma_left(s5, body, 8, 12);
    lemma_left(s6, rest, 8, 12);
    lemma_left(s3, fields, 12, 16);
    lemma_left(s4, padding(fields.len(), 8), 12, 16);
    lemma_left(s5, body, 12, 16);
    lemma_left(s6, rest, 12, 16);
    lemma_left(s4, padding(fields.len(), 8), 16, 16int + fields.len());
    lemma_left(s5, body, 16, 16int + fields.len());
    lemma_left(s6, rest, 16, 16int + fields.len());
    lemma_u32_at(buf, 4, n);
    lemma_u32_at(buf, 8, serial);
    lemma_u32_at(buf, 12, k);
    assert(buf[0] == start[0] && buf[1] == start[1] && buf[2] == start[2] && buf[3] == start[3]);
}

/// The left part of a concatenation.
proof fn lemma_left(x: Seq<u8>, y: Seq<u8>, i: int, j: int)
    requires
        0 <= i <= j <= x.len(),
    ensures
        (x + y).subrange(i, j) == x.subrange(i, j),
{
    assert((x + y).subrange(i, j) =~= x.subrange(i, j));
}

/// The right part of a concatenation.
proof fn lemma_right(x: Seq<u8>, y: Seq<u8>)
    ensures
        (x + y).subrange(x.len() as int, (x.len() + y.len()) as int) == y,
{
    assert((x + y).subrange(x.len() as int, (x.len() + y.len()) as int) =~= y);
}

/// What a frame announces as its size is its size: a stream of frames is cut
/// at the frames' own boundaries.
pub proof fn frame_announces_its_size(
    msg_type: u8,
    serial: u32,
    fields: Seq<u8>,
    body: Seq<u8>,
    rest: Seq<u8>,
)
    requires
        frame(msg_type, serial, fields, body).len() <= MAX_MESSAGE_SIZE,
    ensures
        message_size(frame(msg_type, serial, fields, body) + rest) == Ok::<Option<int>, Fault>(
            Some(frame(msg_type, serial, fields, body).len() as int),
        ),
{
    assert(fields.len() <= frame(msg_type, serial, fields, body).len());
    assert(body.len() <= frame(msg_type, serial, fields, body).len());
    lemma_frame_prefix(msg_type, serial, fields, body, rest);
}

/// A frame parses to the header that it was built from, whatever follows it.
pub proof fn frame_reads_back(
    msg_type: u8,
    serial: u32,
    fields: Seq<FieldModel>,
    body: Seq<u8>,
    rest: Seq<u8>,
)
    requires
        serial != 0,
        forall|i: int| 0 <= i < fields.len() ==> encodable(#[trigger] fields[i]),
        fields_bytes(fields).len() <= u32::MAX,
        16 + fields_bytes(fields).len() + 7 <= usize::MAX,
        body.len() <= u32::MAX,
    ensures
        header_of(frame(msg_type, serial, fields_bytes(fields), body) + rest) == Ok::<
            HeaderModel,
            Fault,
        >(
            HeaderModel {
                endian: Endian::Little,
                msg_type: MessageType::of_byte(msg_type),
                flags: 0,
                body_len: body.len() as u32,
                serial,
                path: last_text(fields, FIELD_PATH),
                interface: last_text(fields, FIELD_INTERFACE),
                member: last_text(fields, FIELD_MEMBER),
                error_name: last_text(fields, FIELD_ERROR_NAME),
                destination: last_text(fields, FIELD_DESTINATION),
                sender: last_text(fields, FIELD_SENDER),
                signature: last_text(fields, FIELD_SIGNATURE),
                reply_serial: last_number(fields, FIELD_REPLY_SERIAL),
                unix_fds: last_number(fields, FIELD_UNIX_FDS),
            },
        ),
{
    let buf = frame(msg_type, serial, fields_bytes(fields), body) + rest;
    lemma_frame_prefix(msg_type, serial, fields_bytes(fields), body, rest);
    lemma_fields_read_back(buf, fields, 0);
    assert(fields.take(0) =~= seq![]);
    assert(fields.skip(0) =~= fields);
    assert(fields_bytes(seq![]).len() == 0);
}

/// The text inside an optional string slice.
pub open spec fn slice_text(s: Option<&str>) -> Option<Seq<char>> {
    match s {
        Some(t) => Some(t@),
        None => None,
    }
}

/// The signature that a header carries for a body with signature `sig`.
pub open spec fn body_signature(sig: Seq<char>) -> Option<Seq<char>> {
    if sig.len() == 0 {
        None
    } else {
        Some(sig)
    }
}

/// The last value for each code in a list that ends with the routing fields.
proof fn lemma_last_value_routing(
    first: Seq<FieldModel>,
    destination: Option<&str>,
    sender: Option<&str>,
    sig: Seq<char>,
)
    ensures
        forall|code: u8| #[trigger]
            last_value(
                first + optional_text(FIELD_DESTINATION, destination) + optional_text(
                    FIELD_SENDER,
                    sender,
                ) + signature_field(sig),
                code,
            ) == if code == FIELD_SIGNATURE && sig.len() > 0 {
                Some(ValueModel::Signature(sig))
            } else if code == FIELD_SENDER && sender is Some {
                Some(ValueModel::Text(sender->0@))
            } else if code == FIELD_DESTINATION && destination is Some {
                Some(ValueModel::Text(destination->0@))
            } else {
                last_value(first, code)
            },
{
    let a = first + optional_text(FIELD_DESTINATION, destination);
    let b = a + optional_text(FIELD_SENDER, sender);
    let c = b + signature_field(sig);
    if destination is Some {
        assert(a.drop_last() =~= first);
    } else {
        assert(a =~= first);
    }
    if sender is Some {
        assert(b.drop_last() =~= a);
    } else {
        assert(b =~= a);
    }
    if sig.len() > 0 {
        assert(c.drop_last() =~= b);
    } else {
        assert(c =~= b);
    }
    assert forall|code: u8|
        #[trigger] last_value(c, code) == if code == FIELD_SIGNATURE && sig.len() > 0 {
            Some(ValueModel::Signature(sig))
        } else if code == FIELD_SENDER && sender is Some {
            Some(ValueModel::Text(sender->0@))
        } else if code == FIELD_DESTINATION && destination is Some {
            Some(ValueModel::Text(destination->0@))
        } else {
            last_value(first, code)
        } by {
        assert(last_value(a, code) == if code == FIELD_DESTINATION && destination is Some {
            Some(ValueModel::Text(destination->0@))
        } else {
            last_value(first, code)
        });
        assert(last_value(b, code) == if code == FIELD_SENDER && sender is Some {
            Some(ValueModel::Text(sender->0@))
        } else {
            last_value(a, code)
        });
    }
}

/// A text in a field is no longer than the fields array.
pub proof fn lemma_text_fits(fields: Seq<FieldModel>, i: int)
    requires
        0 <= i < fields.len(),
    ensures
        fields[i].value matches ValueModel::Text(s) ==> encode_utf8(s).len() <= fields_bytes(
            fields,
        ).len(),
{
    lemma_fields_prefix(fields, i + 1);
    assert(fields.take(i + 1).last() == fields[i]);
}

/// The fields of a frame can be carried when the first ones can and the body
/// signature is short enough.
proof fn lemma_frame_encodable(
    first: Seq<FieldModel>,
    destination: Option<&str>,
    sender: Option<&str>,
    sig: Seq<char>,
    fields: Seq<FieldModel>,
)
    requires
        fields == first + optional_text(FIELD_DESTINATION, destination) + optional_text(
            FIELD_SENDER,
            sender,
        ) + signature_field(sig),
        fields_bytes(fields).len() <= u32::MAX,
        encode_utf8(sig).len() <= u8::MAX,
        forall|i: int|
            0 <= i < first.len() ==> match (#[trigger] first[i]).value {
                ValueModel::Text(_) => field_tag(first[i].code) == Some('o') || field_tag(
                    first[i].code,
                ) == Some('s'),
                ValueModel::Number(_) => field_tag(first[i].code) == Some('u'),
                ValueModel::Signature(_) => false,
            },
    ensures
        forall|i: int| 0 <= i < fields.len() ==> encodable(#[trigger] fields[i]),
{
    assert forall|i: int| 0 <= i < fields.len() implies encodable(#[trigger] fields[i]) by {
        lemma_text_fits(fields, i);
        if i < first.len() {
            assert(fields[i] == first[i]);
        }
    }
}

/// What the last values of a frame's own fields are, once the routing fields
/// follow them.
proof fn lemma_frame_texts(
    first: Seq<FieldModel>,
    destination: Option<&str>,
    sender: Option<&str>,
    sig: Seq<char>,
    fields: Seq<FieldModel>,
)
    requires
        fields == first + optional_text(FIELD_DESTINATION, destination) + optional_text(
            FIELD_SENDER,
            sender,
        ) + signature_field(sig),
        last_value(first, FIELD_DESTINATION) is None,
        last_value(first, FIELD_SENDER) is None,
        last_value(first, FIELD_SIGNATURE) is None,
    ensures
        last_text(fields, FIELD_PATH) == last_text(first, FIELD_PATH),
        last_text(fields, FIELD_INTERFACE) == last_text(first, FIELD_INTERFACE),
        last_text(fields, FIELD_MEMBER) == last_text(first, FIELD_MEMBER),
        last_text(fields, FIELD_ERROR_NAME) == last_text(first, FIELD_ERROR_NAME),
        last_text(fields, FIELD_DESTINATION) == slice_text(destination),
        last_text(fields, FIELD_SENDER) == slice_text(sender),
        last_text(fields, FIELD_SIGNATURE) == body_signature(sig),
        last_number(fields, FIELD_REPLY_SERIAL) == last_number(first, FIELD_REPLY_SERIAL),
        last_number(fields, FIELD_UNIX_FDS) == last_number(first, FIELD_UNIX_FDS),
{
    lemma_last_value_routing(first, destination, sender, sig);
}

/// A built method return parses to its own serial, reply serial, addresses and
/// body signature, and to nothing else.
pub proof fn method_return_round_trip(m: MethodReturn, rest: Seq<u8>)
    requires
        m.our_serial != 0,
        encode_utf8(m.body.signature@).len() <= u8::MAX,
        fields_bytes(m.fields()).len() <= u32::MAX,
        16 + fields_bytes(m.fields()).len() + 7 <= usize::MAX,
        m.body.bytes@.len() <= u32::MAX,
    ensures
        header_of(
            frame(TYPE_METHOD_RETURN, m.our_serial, fields_bytes(m.fields()), m.body.bytes@) + rest,
        ) == Ok::<HeaderModel, Fault>(
            HeaderModel {
                endian: Endian::Little,
                msg_type: MessageType::MethodReturn,
                flags: 0,
                body_len: m.body.bytes@.len() as u32,
                serial: m.our_serial,
                path: None,
                interface: None,
                member: None,
                error_name: None,
                destination: slice_text(m.destination),
                sender: slice_text(m.sender),
                signature: body_signature(m.body.signature@),
                reply_serial: Some(m.reply_to_serial),
                unix_fds: None,
            },
        ),
{
    let first = seq![
        FieldModel { code: FIELD_REPLY_SERIAL, value: ValueModel::Number(m.reply_to_serial) },
    ];
    let fields = m.fields();
    assert(last_value(first, FIELD_PATH) == None::<ValueModel>
        && last_value(first, FIELD_INTERFACE) == None::<ValueModel>
        && last_value(first, FIELD_MEMBER) == None::<ValueModel>
        && last_value(first, FIELD_ERROR_NAME) == None::<ValueModel>
        && last_value(first, FIELD_REPLY_SERIAL) == Some(first[0].value)
        && last_value(first, FIELD_DESTINATION) == None::<ValueModel>
        && last_value(first, FIELD_SENDER) == None::<ValueModel>
        && last_value(first, FIELD_SIGNATURE) == None::<ValueModel>
        && last_value(first, FIELD_UNIX_FDS) == None::<ValueModel>) by {
        reveal_with_fuel(last_value, 2);
    }
    lemma_frame_texts(first, m.destination, m.sender, m.body.signature@, fields);
    lemma_frame_encodable(first, m.destination, m.sender, m.body.signature@, fields);
    frame_reads_back(TYPE_METHOD_RETURN, m.our_serial, fields, m.body.bytes@, rest);
}

/// A built signal parses to its own serial, path, interface, member, addresses
/// and body signature, and to nothing else.
pub proof fn signal_round_trip(m: Signal, rest: Seq<u8>)
    requires
        m.our_serial != 0,
        encode_utf8(m.body.signature@).len() <= u8::MAX,
        fields_bytes(m.fields()).len() <= u32::MAX,
        16 + fields_bytes(m.fields()).len() + 7 <= usize::MAX,
        m.body.bytes@.len() <= u32::MAX,
    ensures
        header_of(
            frame(TYPE_SIGNAL, m.our_serial, fields_bytes(m.fields()), m.body.bytes@) + rest,
        ) == Ok::<HeaderModel, Fault>(
            HeaderModel {
                endian: Endian::Little,
                msg_type: MessageType::Signal,
                flags: 0,
                body_len: m.body.bytes@.len() as u32,
                serial: m.our_serial,
                path: Some(m.path@),
                interface: Some(m.interface@),
                member: Some(m.member@),
                error_name: None,
                destination: slice_text(m.destination),
                sender: slice_text(m.sender),
                signature: body_signature(m.body.signature@),
                reply_serial: None,
                unix_fds: None,
            },
        ),
{
    let first = seq![
        FieldModel { code: FIELD_PATH, value: ValueModel::Text(m.path@) },
        FieldModel { code: FIELD_INTERFACE, value: ValueModel::Text(m.interface@) },
        FieldModel { code: FIELD_MEMBER, value: ValueModel::Text(m.member@) },
    ];
    let fields = m.fields();
    assert(last_value(first, FIELD_PATH) == Some(first[0].value)
        && last_value(first, FIELD_INTERFACE) == Some(first[1].value)
        && last_value(first, FIELD_MEMBER) == Some(first[2].value)
        && last_value(first, FIELD_ERROR_NAME) == None::<ValueModel>
        && last_value(first, FIELD_REPLY_SERIAL) == None::<ValueModel>
        && last_value(first, FIELD_DESTINATION) == None::<ValueModel>
        && last_value(first, FIELD_SENDER) == None::<ValueModel>
        && last_value(first, FIELD_SIGNATURE) == None::<ValueModel>
        && last_value(first, FIELD_UNIX_FDS) == None::<ValueModel>) by {
        reveal_with_fuel(last_value, 4);
    }
    lemma_frame_texts(first, m.destination, m.sender, m.body.signature@, fields);
    lemma_frame_encodable(first, m.destination, m.sender, m.body.signature@, fields);
    frame_reads_back(TYPE_SIGNAL, m.our_serial, fields, m.body.bytes@, rest);
}

/// A built error parses to its own serial, reply serial, name, addresses and
/// body signature, and to nothing else.
pub proof fn error_round_trip(m: Error, rest: Seq<u8>)
    requires
        m.our_serial != 0,
        encode_utf8(m.body.signature@).len() <= u8::MAX,
        fields_bytes(m.fields()).len() <= u32::MAX,
        16 + fields_bytes(m.fields()).len() + 7 <= usize::MAX,
        m.body.bytes@.len() <= u32::MAX,
    ensures
        header_of(
            frame(TYPE_ERROR, m.our_serial, fields_bytes(m.fields()), m.body.bytes@) + rest,
        ) == Ok::<HeaderModel, Fault>(
            HeaderModel {
                endian: Endian::Little,
                msg_type: MessageType::Error,
                flags: 0,
                body_len: m.body.bytes@.len() as u32,
                serial: m.our_serial,
                path: None,
                interface: None,
                member: None,
                error_name: Some(m.error_name@),
                destination: slice_text(m.destination),
                sender: slice_text(m.sender),
                signature: body_signature(m.body.signature@),
                reply_serial: Some(m.reply_to_serial),
                unix_fds: None,
            },
        ),
{
    let first = seq![
        FieldModel { code: FIELD_REPLY_SERIAL, value: ValueModel::Number(m.reply_to_serial) },
        FieldModel { code: FIELD_ERROR_NAME, value: ValueModel::Text(m.error_name@) },
    ];
    let fields = m.fields();
    assert(last_value(first, FIELD_PATH) == None::<ValueModel>
        && last_value(first, FIELD_INTERFACE) == None::<ValueModel>
        && last_value(first, FIELD_MEMBER) == None::<ValueModel>
        && last_value(first, FIELD_ERROR_NAME) == Some(first[1].value)
        && last_value(first, FIELD_REPLY_SERIAL) == Some(first[0].value)
        && last_value(first, FIELD_DESTINATION) == None::<ValueModel>
        && last_value(first, FIELD_SENDER) == None::<ValueModel>
        && last_value(first, FIELD_SIGNATURE) == None::<ValueModel>
        && last_value(first, FIELD_UNIX_FDS) == None::<ValueModel>) by {
        reveal_with_fuel(last_value, 3);
    }
    lemma_frame_texts(first, m.destination, m.sender, m.body.signature@, fields);
    lemma_frame_encodable(first, m.destination, m.sender, m.body.signature@, fields);
    frame_reads_back(TYPE_ERROR, m.our_serial, fields, m.body.bytes@, rest);
}

/// The header of a message does not depend on what follows its header
/// section: bodies are opaque to the parser.
pub proof fn header_ignores_the_body(a: Seq<u8>, b: Seq<u8>, n: int)
    requires
        FIXED_HEADER_LEN <= n <= a.len(),
        n <= b.len(),
        a.take(n) == b.take(n),
        header_section(a) <= n,
    ensures
        header_of(a) == header_of(b),
{
    assert forall|i: int| 0 <= i < n implies a[i] == b[i] by {
        assert(a.take(n)[i] == a[i]);
        assert(b.take(n)[i] == b[i]);
    }
    match endian_of(a[0]) {
        None => {},
        Some(endian) => {
            lemma_fields_of_same(a, b, FIXED_HEADER_LEN as int, header_section(a), endian, n);
        },
    }
}

/// Where the header fields of the message at the start of `buf` end.
pub open spec fn header_section(buf: Seq<u8>) -> int {
    match endian_of(buf[0]) {
        Some(endian) => FIXED_HEADER_LEN + endian.u32_at(buf, 12),
        None => FIXED_HEADER_LEN as int,
    }
}

proof fn lemma_fields_of_same(
    a: Seq<u8>,
    b: Seq<u8>,
    off: int,
    end: int,
    endian: Endian,
    n: int,
)
    requires
        0 <= off,
        end <= n <= a.len(),
        n <= b.len(),
        forall|i: int| 0 <= i < n ==> a[i] == b[i],
    ensures
        fields_of(a, off, end, endian) == fields_of(b, off, end, endian),
    decreases end - off,
{
    reveal(fields_of);
    if off < end && align_up(off, 8) < end {
        let at = align_up(off, 8);
        lemma_field_at_same(a, b, at, end, endian, n);
        match field_at(a, at, end, endian) {
            Ok((f, next)) => {
                if off < next {
                    lemma_fields_of_same(a, b, next, end, endian, n);
                }
            },
            Err(_) => {},
        }
    }
}

proof fn lemma_field_at_same(
    a: Seq<u8>,
    b: Seq<u8>,
    off: int,
    end: int,
    endian: Endian,
    n: int,
)
    requires
        0 <= off < end <= n <= a.len(),
        n <= b.len(),
        forall|i: int| 0 <= i < n ==> a[i] == b[i],
    ensures
        field_at(a, off, end, endian) == field_at(b, off, end, endian),
        match field_at(a, off, end, endian) {
            Ok((_, next)) => off < next,
            Err(_) => true,
        },
{
    lemma_signature_at_same(a, b, off + 1, end, n);
    match signature_at(a, off + 1, end) {
        Ok((_, at)) => {
            lemma_signature_at_same(a, b, at, end, n);
            let start = align_up(at, 4) + 4;
            if start <= end {
                let next = start + endian.u32_at(a, start - 4) + 1;
                if next <= end {
                    assert(a.subrange(start, next - 1) =~= b.subrange(start, next - 1));
                }
            }
        },
        Err(_) => {},
    }
}

proof fn lemma_signature_at_same(a: Seq<u8>, b: Seq<u8>, off: int, end: int, n: int)
    requires
        0 <= off,
        end <= n <= a.len(),
        n <= b.len(),
        forall|i: int| 0 <= i < n ==> a[i] == b[i],
    ensures
        signature_at(a, off, end) == signature_at(b, off, end),
{
    if off < end {
        let next = off + 1 + a[off] + 1;
        if next <= end {
            assert(a.subrange(off + 1, next - 1) =~= b.subrange(off + 1, next - 1));
        }
    }
}

} // verus!
