//! DBus message building: the mirror of [`parse_header`].
//!
//! Builds the few frames that the in-process broker sends by itself: method
//! returns that answer intercepted calls, errors, and signals that carry input
//! method events to clients. Output is always little-endian.
//!
//! [`parse_header`]: crate::dbus::message::parse_header

use crate::bytes::append;
use crate::dbus::message::{
    align_up, field_tag, FieldModel, ValueModel, FIELD_DESTINATION, FIELD_ERROR_NAME,
    FIELD_INTERFACE, FIELD_MEMBER, FIELD_PATH, FIELD_REPLY_SERIAL, FIELD_SENDER, FIELD_SIGNATURE,
};
use vstd::arithmetic::div_mod::{
    lemma_fundamental_div_mod, lemma_fundamental_div_mod_converse, lemma_mod_bound,
    lemma_mod_self_0, lemma_small_mod,
};
use vstd::arithmetic::mul::lemma_mul_is_commutative;
use vstd::prelude::*;
use vstd::utf8::*;

verus! {

pub const ENDIAN_LE: u8 = 0x6c;

pub const TYPE_METHOD_RETURN: u8 = 2;

pub const TYPE_ERROR: u8 = 3;

pub const TYPE_SIGNAL: u8 = 4;

pub const PROTO_VERSION: u8 = 1;

// ---------------------------------------------------------------------------
// The layout
// ---------------------------------------------------------------------------

/// The four bytes of `n`, least significant first.
pub open spec fn le32(n: u32) -> Seq<u8> {
    seq![
        (n % 0x100) as u8,
        (n / 0x100 % 0x100) as u8,
        (n / 0x1_0000 % 0x100) as u8,
        (n / 0x100_0000) as u8,
    ]
}

/// The zero bytes that bring length `len` to a multiple of `bound`.
pub open spec fn padding(len: nat, bound: nat) -> Seq<u8> {
    Seq::new(((bound - len % bound) % bound as int) as nat, |i: int| 0u8)
}

/// A signature: its length in one byte, its bytes, a NUL.
pub open spec fn signature_bytes(sig: Seq<char>) -> Seq<u8> {
    seq![encode_utf8(sig).len() as u8] + encode_utf8(sig) + seq![0u8]
}

/// A string written at offset `pos`: padding to a multiple of four, its
/// length, its bytes, a NUL.
pub open spec fn string_bytes(pos: nat, s: Seq<char>) -> Seq<u8> {
    padding(pos, 4) + le32(encode_utf8(s).len() as u32) + encode_utf8(s) + seq![0u8]
}

/// A byte array written at offset `pos`: padding to a multiple of four, its
/// length, its bytes.
pub open spec fn array_bytes(pos: nat, bytes: Seq<u8>) -> Seq<u8> {
    padding(pos, 4) + le32(bytes.len() as u32) + bytes
}

/// The start of a header field written at offset `pos`: padding to a multiple
/// of eight, the code, the type tag.
pub open spec fn field_head(pos: nat, code: u8, tag: Seq<char>) -> Seq<u8> {
    padding(pos, 8) + seq![code] + signature_bytes(tag)
}

/// A header-field value written at offset `pos`.
pub open spec fn value_bytes(pos: nat, value: ValueModel) -> Seq<u8> {
    match value {
        ValueModel::Text(s) => string_bytes(pos, s),
        ValueModel::Number(n) => padding(pos, 4) + le32(n),
        ValueModel::Signature(s) => signature_bytes(s),
    }
}

/// A header field with type tag `tag` written at offset `pos`.
pub open spec fn tagged_field_bytes(
    pos: nat,
    code: u8,
    tag: Seq<char>,
    value: ValueModel,
) -> Seq<u8> {
    let head = field_head(pos, code, tag);
    head + value_bytes(pos + head.len(), value)
}

/// A header field written at offset `pos`.
pub open spec fn field_bytes(pos: nat, f: FieldModel) -> Seq<u8> {
    tagged_field_bytes(pos, f.code, seq![field_tag(f.code)->0], f.value)
}

/// The header-fields array.
pub open spec fn fields_bytes(fields: Seq<FieldModel>) -> Seq<u8>
    decreases fields.len(),
{
    if fields.len() == 0 {
        seq![]
    } else {
        let before = fields_bytes(fields.drop_last());
        before + field_bytes(before.len(), fields.last())
    }
}

/// A whole message: fixed prefix, header fields, padding to a multiple of
/// eight, body.
pub open spec fn frame(msg_type: u8, serial: u32, fields: Seq<u8>, body: Seq<u8>) -> Seq<u8> {
    seq![ENDIAN_LE, msg_type, 0u8, PROTO_VERSION] + le32(body.len() as u32) + le32(serial) + le32(
        fields.len() as u32,
    ) + fields + padding(fields.len(), 8) + body
}

/// The optional text field `code`.
pub open spec fn optional_text(code: u8, value: Option<&str>) -> Seq<FieldModel> {
    match value {
        Some(s) => seq![FieldModel { code, value: ValueModel::Text(s@) }],
        None => seq![],
    }
}

/// The signature field of a message with body signature `sig`; none when the
/// body is empty.
pub open spec fn signature_field(sig: Seq<char>) -> Seq<FieldModel> {
    if sig.len() == 0 {
        seq![]
    } else {
        seq![FieldModel { code: FIELD_SIGNATURE, value: ValueModel::Signature(sig) }]
    }
}

// ---------------------------------------------------------------------------
// Bodies
// ---------------------------------------------------------------------------

/// A message body: the signature and the packed bytes that conform to it.
#[derive(Debug, Clone, PartialEq, Eq)]
pub struct Body {
    pub signature: String,
    pub bytes: Vec<u8>,
}

impl Default for Body {
    fn default() -> (r: Body)
        ensures
            r.signature@.len() == 0,
            r.bytes@.len() == 0,
    {
        Body { signature: String::new(), bytes: Vec::new() }
    }
}

impl Body {
    pub fn is_empty(&self) -> (r: bool)
        ensures
            r == (self.signature@.len() == 0 && self.bytes@.len() == 0),
    {
        self.signature.as_str().is_empty() && self.bytes.is_empty()
    }
}

/// No body.
pub fn body_empty() -> (r: Body)
    ensures
        r.signature@ == Seq::<char>::empty(),
        r.bytes@ == Seq::<u8>::empty(),
{
    Body { signature: String::new(), bytes: Vec::new() }
}

/// `b`: a boolean, encoded as the number 0 or 1.
pub fn body_bool(v: bool) -> (r: Body)
    ensures
        r.signature@ == seq!['b'],
        r.bytes@ == le32(if v { 1 } else { 0 }),
{
    let mut bytes: Vec<u8> = Vec::new();
    write_u32(&mut bytes, if v { 1 } else { 0 });
    proof {
        reveal_strlit("b");
        assert("b"@ =~= seq!['b']);
    }
    Body { signature: "b".to_owned(), bytes }
}

/// `s`: a string.
pub fn body_string(s: &str) -> (r: Body)
    ensures
        r.signature@ == seq!['s'],
        r.bytes@ == string_bytes(0, s@),
{
    let mut bytes: Vec<u8> = Vec::new();
    write_string(&mut bytes, s);
    proof {
        reveal_strlit("s");
        assert("s"@ =~= seq!['s']);
        assert(Seq::<u8>::empty() + string_bytes(0, s@) =~= string_bytes(0, s@));
    }
    Body { signature: "s".to_owned(), bytes }
}

/// `(oay)`: an object path and a byte array, as in the reply to
/// `CreateInputContext`: the path of the input context and its identifier.
pub fn body_oay(object_path: &str, byte_array: &[u8]) -> (r: Body)
    ensures
        r.signature@ == seq!['(', 'o', 'a', 'y', ')'],
        r.bytes@ == string_bytes(0, object_path@) + array_bytes(
            string_bytes(0, object_path@).len(),
            byte_array@,
        ),
{
    let mut bytes: Vec<u8> = Vec::new();
    write_object_path(&mut bytes, object_path);
    proof {
        assert(Seq::<u8>::empty() + string_bytes(0, object_path@) =~= string_bytes(
            0,
            object_path@,
        ));
    }
    write_byte_array(&mut bytes, byte_array);
    proof {
        reveal_strlit("(oay)");
        assert("(oay)"@ =~= seq!['(', 'o', 'a', 'y', ')']);
    }
    Body { signature: "(oay)".to_owned(), bytes }
}

// ---------------------------------------------------------------------------
// Frames
// ---------------------------------------------------------------------------

/// A method-return frame.
#[derive(Debug, Clone)]
pub struct MethodReturn<'a> {
    pub our_serial: u32,
    pub reply_to_serial: u32,
    pub destination: Option<&'a str>,
    pub sender: Option<&'a str>,
    pub body: Body,
}

impl<'a> MethodReturn<'a> {
    /// The header fields of the frame, in order.
    pub open spec fn fields(&self) -> Seq<FieldModel> {
        seq![
            FieldModel {
                code: FIELD_REPLY_SERIAL,
                value: ValueModel::Number(self.reply_to_serial),
            },
        ] + optional_text(FIELD_DESTINATION, self.destination) + optional_text(
            FIELD_SENDER,
            self.sender,
        ) + signature_field(self.body.signature@)
    }

    pub fn encode(&self) -> (r: Vec<u8>)
        ensures
            r@ == frame(
                TYPE_METHOD_RETURN,
                self.our_serial,
                fields_bytes(self.fields()),
                self.body.bytes@,
            ),
    {
        let mut fields: Vec<u8> = Vec::new();
        write_field_u32(&mut fields, FIELD_REPLY_SERIAL, "u", self.reply_to_serial);
        let ghost first = FieldModel {
            code: FIELD_REPLY_SERIAL,
            value: ValueModel::Number(self.reply_to_serial),
        };
        proof {
            lemma_tags();
            lemma_fields_push(seq![], first, "u"@);
            assert(Seq::<FieldModel>::empty().push(first) =~= seq![first]);
        }
        let ghost before = seq![first];
        write_routing(
            &mut fields,
            self.destination,
            self.sender,
            self.body.signature.as_str(),
            Ghost(before),
        );
        assemble(TYPE_METHOD_RETURN, self.our_serial, fields.as_slice(), self.body.bytes.as_slice())
    }
}

/// A signal frame.
#[derive(Debug, Clone)]
pub struct Signal<'a> {
    pub our_serial: u32,
    pub path: &'a str,
    pub interface: &'a str,
    pub member: &'a str,
    pub destination: Option<&'a str>,
    pub sender: Option<&'a str>,
    pub body: Body,
}

impl<'a> Signal<'a> {
    /// The header fields of the frame, in order.
    pub open spec fn fields(&self) -> Seq<FieldModel> {
        seq![
            FieldModel { code: FIELD_PATH, value: ValueModel::Text(self.path@) },
            FieldModel { code: FIELD_INTERFACE, value: ValueModel::Text(self.interface@) },
            FieldModel { code: FIELD_MEMBER, value: ValueModel::Text(self.member@) },
        ] + optional_text(FIELD_DESTINATION, self.destination) + optional_text(
            FIELD_SENDER,
            self.sender,
        ) + signature_field(self.body.signature@)
    }

    pub fn encode(&self) -> (r: Vec<u8>)
        ensures
            r@ == frame(
                TYPE_SIGNAL,
                self.our_serial,
                fields_bytes(self.fields()),
                self.body.bytes@,
            ),
    {
        let mut fields: Vec<u8> = Vec::new();
        let ghost path = FieldModel { code: FIELD_PATH, value: ValueModel::Text(self.path@) };
        let ghost interface = FieldModel {
            code: FIELD_INTERFACE,
            value: ValueModel::Text(self.interface@),
        };
        let ghost member = FieldModel { code: FIELD_MEMBER, value: ValueModel::Text(self.member@) };
        proof {
            lemma_tags();
            lemma_fields_push(seq![], path, "o"@);
            lemma_fields_push(seq![path], interface, "s"@);
            lemma_fields_push(seq![path, interface], member, "s"@);
            assert(Seq::<FieldModel>::empty().push(path) =~= seq![path]);
            assert(seq![path].push(interface) =~= seq![path, interface]);
            assert(seq![path, interface].push(member) =~= seq![path, interface, member]);
        }
        write_field_str(&mut fields, FIELD_PATH, "o", self.path);
        write_field_str(&mut fields, FIELD_INTERFACE, "s", self.interface);
        write_field_str(&mut fields, FIELD_MEMBER, "s", self.member);
        let ghost before = seq![path, interface, member];
        write_routing(
            &mut fields,
            self.destination,
            self.sender,
            self.body.signature.as_str(),
            Ghost(before),
        );
        assemble(TYPE_SIGNAL, self.our_serial, fields.as_slice(), self.body.bytes.as_slice())
    }
}

/// An error reply: the answer to an intercepted call that cannot be served.
#[derive(Debug, Clone)]
pub struct Error<'a> {
    pub our_serial: u32,
    pub reply_to_serial: u32,
    pub error_name: &'a str,
    pub destination: Option<&'a str>,
    pub sender: Option<&'a str>,
    pub body: Body,
}

impl<'a> Error<'a> {
    /// The header fields of the frame, in order.
    pub open spec fn fields(&self) -> Seq<FieldModel> {
        seq![
            FieldModel {
                code: FIELD_REPLY_SERIAL,
                value: ValueModel::Number(self.reply_to_serial),
            },
            FieldModel { code: FIELD_ERROR_NAME, value: ValueModel::Text(self.error_name@) },
        ] + optional_text(FIELD_DESTINATION, self.destination) + optional_text(
            FIELD_SENDER,
            self.sender,
        ) + signature_field(self.body.signature@)
    }

    pub fn encode(&self) -> (r: Vec<u8>)
        ensures
            r@ == frame(
                TYPE_ERROR,
                self.our_serial,
                fields_bytes(self.fields()),
                self.body.bytes@,
            ),
    {
        let mut fields: Vec<u8> = Vec::new();
        let ghost reply = FieldModel {
            code: FIELD_REPLY_SERIAL,
            value: ValueModel::Number(self.reply_to_serial),
        };
        let ghost name = FieldModel {
            code: FIELD_ERROR_NAME,
            value: ValueModel::Text(self.error_name@),
        };
        proof {
            lemma_tags();
            lemma_fields_push(seq![], reply, "u"@);
            lemma_fields_push(seq![reply], name, "s"@);
            assert(Seq::<FieldModel>::empty().push(reply) =~= seq![reply]);
            assert(seq![reply].push(name) =~= seq![reply, name]);
        }
        write_field_u32(&mut fields, FIELD_REPLY_SERIAL, "u", self.reply_to_serial);
        write_field_str(&mut fields, FIELD_ERROR_NAME, "s", self.error_name);
        let ghost before = seq![reply, name];
        write_routing(
            &mut fields,
            self.destination,
            self.sender,
            self.body.signature.as_str(),
            Ghost(before),
        );
        assemble(TYPE_ERROR, self.our_serial, fields.as_slice(), self.body.bytes.as_slice())
    }
}

// ---------------------------------------------------------------------------
// Writers
// ---------------------------------------------------------------------------

/// Pads `buf` with zero bytes until its length is a multiple of `bound`.
fn align(buf: &mut Vec<u8>, bound: usize)
    requires
        bound > 0,
    ensures
        final(buf)@ == old(buf)@ + padding(old(buf)@.len(), bound as nat),
{
    let ghost start = buf@;
    proof {
        assert(start + Seq::<u8>::new(0, |i: int| 0u8) =~= start);
    }
    let ghost mut pushed: int = 0;
    while buf.len() % bound != 0
        invariant
            bound > 0,
            0 <= pushed,
            buf@ == start + Seq::new(pushed as nat, |i: int| 0u8),
            padding(buf@.len(), bound as nat).len() + pushed == padding(
                start.len(),
                bound as nat,
            ).len(),
        decreases padding(buf@.len(), bound as nat).len(),
    {
        proof {
            lemma_padding_step(buf@.len(), bound as nat);
        }
        buf.push(0);
        proof {
            pushed = pushed + 1;
            assert(buf@ =~= start + Seq::new(pushed as nat, |i: int| 0u8));
        }
    }
    proof {
        assert(padding(buf@.len(), bound as nat).len() == 0) by {
            lemma_mod_self_0(bound as int);
        }
        assert(Seq::new(pushed as nat, |i: int| 0u8) =~= padding(start.len(), bound as nat));
    }
}

/// One more byte on an unaligned length leaves one byte less to pad.
proof fn lemma_padding_step(n: nat, b: nat)
    requires
        b > 0,
        n % b != 0,
    ensures
        padding(n + 1, b).len() + 1 == padding(n, b).len(),
{
    let r = n % b;
    let q = n as int / b as int;
    lemma_mod_bound(n as int, b as int);
    lemma_small_mod((b - r) as nat, b);
    lemma_fundamental_div_mod(n as int, b as int);
    assert(n == q * b + r) by {
        lemma_mul_is_commutative(q, b as int);
    }
    if r + 1 < b {
        lemma_fundamental_div_mod_converse(n as int + 1, b as int, q, r as int + 1);
        lemma_small_mod((b - (r + 1)) as nat, b);
    } else {
        assert(n + 1 == (q + 1) * b) by (nonlinear_arith)
            requires
                n == q * b + r,
                r + 1 == b,
        ;
        lemma_fundamental_div_mod_converse(n as int + 1, b as int, q + 1, 0);
        lemma_mod_self_0(b as int);
    }
}

/// The type tags as character sequences.
proof fn lemma_tags()
    ensures
        "o"@ == seq!['o'],
        "s"@ == seq!['s'],
        "u"@ == seq!['u'],
        "g"@ == seq!['g'],
{
    reveal_strlit("o");
    reveal_strlit("s");
    reveal_strlit("u");
    reveal_strlit("g");
    assert("o"@ =~= seq!['o']);
    assert("s"@ =~= seq!['s']);
    assert("u"@ =~= seq!['u']);
    assert("g"@ =~= seq!['g']);
}

/// Writing one more field appends its bytes.
proof fn lemma_fields_push(fields: Seq<FieldModel>, f: FieldModel, tag: Seq<char>)
    requires
        tag == seq![field_tag(f.code)->0],
    ensures
        fields_bytes(fields.push(f)) == fields_bytes(fields) + tagged_field_bytes(
            fields_bytes(fields).len(),
            f.code,
            tag,
            f.value,
        ),
{
    assert(fields.push(f).drop_last() =~= fields);
}

/// Writes the fields that every frame ends with: destination, sender and body
/// signature, each only where there is one.
fn write_routing(
    buf: &mut Vec<u8>,
    destination: Option<&str>,
    sender: Option<&str>,
    signature: &str,
    Ghost(before): Ghost<Seq<FieldModel>>,
)
    requires
        old(buf)@ == fields_bytes(before),
    ensures
        final(buf)@ == fields_bytes(
            before + optional_text(FIELD_DESTINATION, destination) + optional_text(
                FIELD_SENDER,
                sender,
            ) + signature_field(signature@),
        ),
{
    proof {
        lemma_tags();
    }
    let ghost mut fields = before;
    match destination {
        Some(dest) => {
            write_field_str(buf, FIELD_DESTINATION, "s", dest);
            proof {
                let f = FieldModel { code: FIELD_DESTINATION, value: ValueModel::Text(dest@) };
                lemma_fields_push(fields, f, "s"@);
                fields = fields.push(f);
            }
        },
        None => {},
    }
    assert(fields =~= before + optional_text(FIELD_DESTINATION, destination));
    match sender {
        Some(name) => {
            write_field_str(buf, FIELD_SENDER, "s", name);
            proof {
                let f = FieldModel { code: FIELD_SENDER, value: ValueModel::Text(name@) };
                lemma_fields_push(fields, f, "s"@);
                fields = fields.push(f);
            }
        },
        None => {},
    }
    assert(fields =~= before + optional_text(FIELD_DESTINATION, destination) + optional_text(
        FIELD_SENDER,
        sender,
    ));
    if !signature.is_empty() {
        write_field_signature(buf, FIELD_SIGNATURE, "g", signature);
        proof {
            let f = FieldModel {
                code: FIELD_SIGNATURE,
                value: ValueModel::Signature(signature@),
            };
            lemma_fields_push(fields, f, "g"@);
            fields = fields.push(f);
        }
    }
    assert(fields =~= before + optional_text(FIELD_DESTINATION, destination) + optional_text(
        FIELD_SENDER,
        sender,
    ) + signature_field(signature@));
}

/// Appends a number, least significant byte first.
fn write_u32(buf: &mut Vec<u8>, n: u32)
    ensures
        final(buf)@ == old(buf)@ + le32(n),
{
    let ghost start = buf@;
    buf.push((n % 0x100) as u8);
    buf.push((n / 0x100 % 0x100) as u8);
    buf.push((n / 0x1_0000 % 0x100) as u8);
    buf.push((n / 0x100_0000) as u8);
    assert(buf@ =~= start + le32(n));
}

/// Appends a string.
pub fn write_string(buf: &mut Vec<u8>, s: &str)
    ensures
        final(buf)@ == old(buf)@ + string_bytes(old(buf)@.len(), s@),
{
    let ghost start = buf@;
    align(buf, 4);
    let bytes = s.as_bytes();
    write_u32(buf, bytes.len() as u32);
    append(buf, bytes);
    buf.push(0);
    assert(buf@ =~= start + string_bytes(start.len(), s@));
}

/// Appends an object path: the layout of a string under another type tag.
fn write_object_path(buf: &mut Vec<u8>, p: &str)
    ensures
        final(buf)@ == old(buf)@ + string_bytes(old(buf)@.len(), p@),
{
    write_string(buf, p);
}

/// Appends a byte array.
fn write_byte_array(buf: &mut Vec<u8>, bytes: &[u8])
    ensures
        final(buf)@ == old(buf)@ + array_bytes(old(buf)@.len(), bytes@),
{
    let ghost start = buf@;
    align(buf, 4);
    write_u32(buf, bytes.len() as u32);
    append(buf, bytes);
    assert(buf@ =~= start + array_bytes(start.len(), bytes@));
}

/// Appends a signature.
fn write_variant_signature(buf: &mut Vec<u8>, sig: &str)
    ensures
        final(buf)@ == old(buf)@ + signature_bytes(sig@),
{
    let ghost start = buf@;
    let bytes = sig.as_bytes();
    buf.push(bytes.len() as u8);
    append(buf, bytes);
    buf.push(0);
    assert(buf@ =~= start + signature_bytes(sig@));
}

/// Appends the start of a header field.
fn write_field_head(buf: &mut Vec<u8>, code: u8, sig: &str)
    ensures
        final(buf)@ == old(buf)@ + field_head(old(buf)@.len(), code, sig@),
{
    let ghost start = buf@;
    align(buf, 8);
    buf.push(code);
    write_variant_signature(buf, sig);
    assert(buf@ =~= start + field_head(start.len(), code, sig@));
}

/// Appends a header field whose value is a string.
fn write_field_str(buf: &mut Vec<u8>, code: u8, sig: &str, value: &str)
    ensures
        final(buf)@ == old(buf)@ + tagged_field_bytes(
            old(buf)@.len(),
            code,
            sig@,
            ValueModel::Text(value@),
        ),
{
    let ghost start = buf@;
    write_field_head(buf, code, sig);
    write_string(buf, value);
    assert(buf@ =~= start + tagged_field_bytes(
        start.len(),
        code,
        sig@,
        ValueModel::Text(value@),
    ));
}

/// Appends a header field whose value is a number.
fn write_field_u32(buf: &mut Vec<u8>, code: u8, sig: &str, value: u32)
    ensures
        final(buf)@ == old(buf)@ + tagged_field_bytes(
            old(buf)@.len(),
            code,
            sig@,
            ValueModel::Number(value),
        ),
{
    let ghost start = buf@;
    write_field_head(buf, code, sig);
    align(buf, 4);
    write_u32(buf, value);
    assert(buf@ =~= start + tagged_field_bytes(
        start.len(),
        code,
        sig@,
        ValueModel::Number(value),
    ));
}

/// Appends a header field whose value is itself a signature.
fn write_field_signature(buf: &mut Vec<u8>, code: u8, sig: &str, value_sig: &str)
    ensures
        final(buf)@ == old(buf)@ + tagged_field_bytes(
            old(buf)@.len(),
            code,
            sig@,
            ValueModel::Signature(value_sig@),
        ),
{
    let ghost start = buf@;
    write_field_head(buf, code, sig);
    write_variant_signature(buf, value_sig);
    assert(buf@ =~= start + tagged_field_bytes(
        start.len(),
        code,
        sig@,
        ValueModel::Signature(value_sig@),
    ));
}

/// The fixed prefix does not change the padding behind the fields.
proof fn lemma_padding_from_sixteen(n: nat)
    ensures
        padding(16 + n, 8) == padding(n, 8),
{
    assert(padding(16 + n, 8) =~= padding(n, 8));
}

/// Joins the fixed prefix, the header fields and the body.
fn assemble(msg_type: u8, serial: u32, fields: &[u8], body: &[u8]) -> (r: Vec<u8>)
    ensures
        r@ == frame(msg_type, serial, fields@, body@),
{
    let mut out: Vec<u8> = Vec::new();
    out.push(ENDIAN_LE);
    out.push(msg_type);
    out.push(0);
    out.push(PROTO_VERSION);
    assert(out@ =~= seq![ENDIAN_LE, msg_type, 0u8, PROTO_VERSION]);
    write_u32(&mut out, body.len() as u32);
    write_u32(&mut out, serial);
    write_u32(&mut out, fields.len() as u32);
    let ghost prefix = out@;
    assert(prefix.len() == 16);
    append(&mut out, fields);
    align(&mut out, 8);
    proof {
        lemma_padding_from_sixteen(fields@.len());
    }
    append(&mut out, body);
    out
}

} // verus!
