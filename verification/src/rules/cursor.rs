//! Caret-position rewrite.
//!
//! Input methods place their candidate popup at coordinates that the client
//! reports over DBus. A client inside the nested compositor reports them in
//! its own surface frame. This module recognises the methods that carry caret
//! coordinates and adds the surface's origin in host coordinates to the
//! leading `(x, y)` pair of the body.
//!
//! | Interface | Member | Signature |
//! |---|---|---|
//! | `org.fcitx.Fcitx.InputContext1` | `SetCursorRectV2` | `iiiid` |
//! | `org.fcitx.Fcitx.InputContext1` | `SetCursorRect` | `iiii` |
//! | `org.fcitx.Fcitx.InputContext`  | `SetCursorLocation` | `ii` |
//!
//! Width, height and scale do not depend on the origin and stay as they are.
//! The addition saturates: a clamped caret is better than one that wraps to
//! the other side of the screen.

use crate::dbus::encode::le32;
use crate::dbus::message::{join_bytes, Endian, Header, HeaderModel};
use crate::fcitx::{INPUT_CONTEXT_IFACE, INPUT_CONTEXT_IFACE_FCITX4};
use crate::text::{decimal, push_decimal, str_eq};
use vstd::prelude::*;

verus! {

/// The recognised caret-coordinate methods.
#[derive(Debug, Clone, Copy, PartialEq, Eq, Structural)]
pub enum CursorMethod {
    /// `SetCursorRectV2(x, y, w, h, scale)`
    SetCursorRectV2,
    /// `SetCursorRect(x, y, w, h)`
    SetCursorRect,
    /// `SetCursorLocation(x, y)`
    SetCursorLocation,
}

impl CursorMethod {
    /// The smallest body that the method can have, in bytes.
    pub open spec fn body_len(self) -> int {
        match self {
            CursorMethod::SetCursorRectV2 => 24,
            CursorMethod::SetCursorRect => 16,
            CursorMethod::SetCursorLocation => 8,
        }
    }

    pub fn expected_body_len(self) -> (r: usize)
        ensures
            r == self.body_len(),
    {
        match self {
            CursorMethod::SetCursorRectV2 => 24,
            CursorMethod::SetCursorRect => 16,
            CursorMethod::SetCursorLocation => 8,
        }
    }
}

/// The caret-coordinate method that a header with this interface, member and
/// signature calls.
pub open spec fn cursor_method(h: HeaderModel) -> Option<CursorMethod> {
    if h.interface == Some(INPUT_CONTEXT_IFACE@) && h.member == Some("SetCursorRectV2"@)
        && h.signature == Some("iiiid"@) {
        Some(CursorMethod::SetCursorRectV2)
    } else if h.interface == Some(INPUT_CONTEXT_IFACE@) && h.member == Some("SetCursorRect"@)
        && h.signature == Some("iiii"@) {
        Some(CursorMethod::SetCursorRect)
    } else if h.interface == Some(INPUT_CONTEXT_IFACE_FCITX4@) && h.member == Some(
        "SetCursorLocation"@,
    ) && h.signature == Some("ii"@) {
        Some(CursorMethod::SetCursorLocation)
    } else {
        None
    }
}

/// Recognises a caret-coordinate method. Anything else gives `None`, a known
/// member with another signature included.
pub fn classify(header: &Header) -> (r: Option<CursorMethod>)
    ensures
        r == cursor_method(header@),
{
    let iface = match &header.interface {
        Some(s) => s.as_str(),
        None => return None,
    };
    let member = match &header.member {
        Some(s) => s.as_str(),
        None => return None,
    };
    let sig = match &header.signature {
        Some(s) => s.as_str(),
        None => return None,
    };
    if str_eq(iface, INPUT_CONTEXT_IFACE) && str_eq(member, "SetCursorRectV2") && str_eq(
        sig,
        "iiiid",
    ) {
        Some(CursorMethod::SetCursorRectV2)
    } else if str_eq(iface, INPUT_CONTEXT_IFACE) && str_eq(member, "SetCursorRect") && str_eq(
        sig,
        "iiii",
    ) {
        Some(CursorMethod::SetCursorRect)
    } else if str_eq(iface, INPUT_CONTEXT_IFACE_FCITX4) && str_eq(member, "SetCursorLocation")
        && str_eq(sig, "ii") {
        Some(CursorMethod::SetCursorLocation)
    } else {
        None
    }
}

/// Why a body that [`classify`] accepted cannot be rewritten.
#[derive(Debug, Clone, PartialEq, Eq)]
pub enum RewriteError {
    /// The body is shorter than the method requires.
    BodyTooShort { got: usize, expected: usize },
}

impl RewriteError {
    /// The error in words.
    pub open spec fn text(self) -> Seq<char> {
        match self {
            RewriteError::BodyTooShort { got, expected } => "cursor body too short: got "@
                + decimal(got as nat) + " bytes, expected at least "@ + decimal(expected as nat),
        }
    }

    pub fn message(&self) -> (r: String)
        ensures
            r@ == self.text(),
    {
        match self {
            RewriteError::BodyTooShort { got, expected } => {
                let mut s = "cursor body too short: got ".to_owned();
                push_decimal(&mut s, *got as u64);
                s.append(" bytes, expected at least ");
                push_decimal(&mut s, *expected as u64);
                s
            },
        }
    }
}

/// The signed number with the bit pattern of `n`.
pub open spec fn signed(n: u32) -> int {
    if n < 0x8000_0000 {
        n as int
    } else {
        n - 0x1_0000_0000
    }
}

/// The bit pattern of the signed number `i`.
pub open spec fn unsigned(i: int) -> u32 {
    if i >= 0 {
        i as u32
    } else {
        (i + 0x1_0000_0000) as u32
    }
}

/// The sum of two signed 32-bit numbers, clamped to their range.
pub open spec fn saturating_sum(a: int, b: int) -> int {
    if a + b > i32::MAX {
        i32::MAX as int
    } else if a + b < i32::MIN {
        i32::MIN as int
    } else {
        a + b
    }
}

/// The four bytes of `n` in byte order `endian`.
pub open spec fn number_bytes(endian: Endian, n: u32) -> Seq<u8> {
    match endian {
        Endian::Little => le32(n),
        Endian::Big => le32(n).reverse(),
    }
}

/// The signed number at `off`.
pub open spec fn i32_at(bytes: Seq<u8>, off: int, endian: Endian) -> int {
    signed(endian.u32_at(bytes, off))
}

/// The four bytes of the signed number in `slot` with `delta` added to it.
pub open spec fn moved_slot(slot: Seq<u8>, endian: Endian, delta: i32) -> Seq<u8> {
    number_bytes(endian, unsigned(saturating_sum(i32_at(slot, 0, endian), delta as int)))
}

/// A body with `delta` added to its leading `(x, y)` pair.
pub open spec fn moved_body(body: Seq<u8>, endian: Endian, delta: (i32, i32)) -> Seq<u8> {
    moved_slot(body.subrange(0, 4), endian, delta.0) + moved_slot(
        body.subrange(4, 8),
        endian,
        delta.1,
    ) + body.skip(8)
}

/// Adds `delta` to the leading `(x, y)` pair of a caret-method body, in place;
/// a body that is too short for the method stays as it is.
pub fn apply_offset(
    method: CursorMethod,
    endian: Endian,
    body: &mut [u8],
    delta: (i32, i32),
) -> (r: Result<(), RewriteError>)
    ensures
        match r {
            Ok(()) => old(body)@.len() >= method.body_len() && final(body)@ == moved_body(
                old(body)@,
                endian,
                delta,
            ),
            Err(RewriteError::BodyTooShort { got, expected }) => {
                &&& old(body)@.len() < method.body_len()
                &&& got == old(body)@.len()
                &&& expected == method.body_len()
                &&& final(body)@ == old(body)@
            },
        },
{
    let expected: usize = method.expected_body_len();
    if body.len() < expected {
        return Err(RewriteError::BodyTooShort { got: body.len(), expected });
    }
    let ghost start = body@;
    let (x, tail) = body.split_at_mut(4);
    let (y, rest) = tail.split_at_mut(4);
    proof {
        assert(y@ =~= start.subrange(4, 8));
        assert(rest@ =~= start.skip(8));
    }
    add_i32(x, endian, delta.0);
    add_i32(y, endian, delta.1);
    Ok(())
}

/// Adds `delta` to the signed number in `slot`, clamped.
fn add_i32(slot: &mut [u8], endian: Endian, delta: i32)
    requires
        old(slot)@.len() == 4,
    ensures
        final(slot)@ == moved_slot(old(slot)@, endian, delta),
{
    let bits: u32 = endian.read_u32(slot);
    let current: i64 = if bits < 0x8000_0000 {
        bits as i64
    } else {
        bits as i64 - 0x1_0000_0000
    };
    let sum: i64 = current + delta as i64;
    let new: i64 = if sum > i32::MAX as i64 {
        i32::MAX as i64
    } else if sum < i32::MIN as i64 {
        i32::MIN as i64
    } else {
        sum
    };
    let n: u32 = if new >= 0 {
        new as u32
    } else {
        (new + 0x1_0000_0000) as u32
    };
    let b0: u8 = (n % 0x100) as u8;
    let b1: u8 = (n / 0x100 % 0x100) as u8;
    let b2: u8 = (n / 0x1_0000 % 0x100) as u8;
    let b3: u8 = (n / 0x100_0000) as u8;
    let ghost before = slot@;
    match endian {
        Endian::Little => {
            slot[0] = b0;
            slot[1] = b1;
            slot[2] = b2;
            slot[3] = b3;
        },
        Endian::Big => {
            slot[0] = b3;
            slot[1] = b2;
            slot[2] = b1;
            slot[3] = b0;
        },
    }
    assert(slot@ =~= moved_slot(before, endian, delta));
}

/// Four bytes written in a byte order read back as the number.
proof fn lemma_number_reads_back(endian: Endian, n: u32, tail: Seq<u8>)
    ensures
        number_bytes(endian, n).len() == 4,
        endian.u32_at(number_bytes(endian, n) + tail, 0) == n,
{
}

/// A slot's bytes are those of the number in it.
proof fn lemma_slot_is_its_number(slot: Seq<u8>, endian: Endian)
    requires
        slot.len() == 4,
    ensures
        number_bytes(endian, endian.u32_at(slot, 0)) == slot,
{
    match endian {
        Endian::Little => lemma_join_splits(slot[0], slot[1], slot[2], slot[3]),
        Endian::Big => lemma_join_splits(slot[3], slot[2], slot[1], slot[0]),
    }
    assert(number_bytes(endian, endian.u32_at(slot, 0)) =~= slot);
}

/// Splitting a number joined from four bytes gives the bytes back.
proof fn lemma_join_splits(a: u8, b: u8, c: u8, d: u8)
    ensures
        le32(join_bytes(a, b, c, d)) == seq![a, b, c, d],
{
    let n = join_bytes(a, b, c, d);
    assert(n % 0x100 == a && n / 0x100 % 0x100 == b && n / 0x1_0000 % 0x100 == c && n / 0x100_0000
        == d) by (bit_vector)
        requires
            n == a + 0x100 * b + 0x1_0000 * c + 0x100_0000 * d,
    ;
    assert(le32(n) =~= seq![a, b, c, d]);
}

/// The rewrite adds the offset to `x` and `y`, clamped, and touches nothing
/// behind them.
pub proof fn rewrite_moves_only_the_origin(body: Seq<u8>, endian: Endian, delta: (i32, i32))
    requires
        body.len() >= 8,
    ensures
        moved_body(body, endian, delta).len() == body.len(),
        i32_at(moved_body(body, endian, delta), 0, endian) == saturating_sum(
            i32_at(body, 0, endian),
            delta.0 as int,
        ),
        i32_at(moved_body(body, endian, delta), 4, endian) == saturating_sum(
            i32_at(body, 4, endian),
            delta.1 as int,
        ),
        moved_body(body, endian, delta).skip(8) == body.skip(8),
{
    let x = unsigned(saturating_sum(i32_at(body.subrange(0, 4), 0, endian), delta.0 as int));
    let y = unsigned(saturating_sum(i32_at(body.subrange(4, 8), 0, endian), delta.1 as int));
    let moved = moved_body(body, endian, delta);
    lemma_number_reads_back(endian, x, seq![]);
    lemma_number_reads_back(endian, y, seq![]);
    assert(number_bytes(endian, x) + Seq::<u8>::empty() =~= number_bytes(endian, x));
    assert(number_bytes(endian, y) + Seq::<u8>::empty() =~= number_bytes(endian, y));
    assert(moved.subrange(0, 4) =~= number_bytes(endian, x));
    assert(moved.subrange(4, 8) =~= number_bytes(endian, y));
    assert(endian.u32_at(moved, 0) == endian.u32_at(moved.subrange(0, 4), 0));
    assert(endian.u32_at(moved, 4) == endian.u32_at(moved.subrange(4, 8), 0));
    assert(endian.u32_at(body, 0) == endian.u32_at(body.subrange(0, 4), 0));
    assert(endian.u32_at(body, 4) == endian.u32_at(body.subrange(4, 8), 0));
    assert(moved.skip(8) =~= body.skip(8));
}

/// A zero offset leaves the body as it is.
pub proof fn zero_offset_changes_nothing(body: Seq<u8>, endian: Endian)
    requires
        body.len() >= 8,
    ensures
        moved_body(body, endian, (0, 0)) == body,
{
    lemma_slot_is_its_number(body.subrange(0, 4), endian);
    lemma_slot_is_its_number(body.subrange(4, 8), endian);
    assert(unsigned(signed(endian.u32_at(body.subrange(0, 4), 0))) == endian.u32_at(
        body.subrange(0, 4),
        0,
    ));
    assert(moved_body(body, endian, (0, 0)) =~= body.subrange(0, 4) + body.subrange(4, 8)
        + body.skip(8));
    assert(body.subrange(0, 4) + body.subrange(4, 8) + body.skip(8) =~= body);
}

/// The opposite of an offset that was not clamped undoes it in one slot.
proof fn lemma_slot_undone(slot: Seq<u8>, endian: Endian, d: i32)
    requires
        slot.len() == 4,
        d != i32::MIN,
        i32::MIN <= i32_at(slot, 0, endian) + d <= i32::MAX,
    ensures
        moved_slot(slot, endian, d).len() == 4,
        moved_slot(moved_slot(slot, endian, d), endian, -d as i32) == slot,
{
    let n = endian.u32_at(slot, 0);
    let m = unsigned(signed(n) + d);
    lemma_slot_is_its_number(slot, endian);
    lemma_number_reads_back(endian, m, seq![]);
    assert(number_bytes(endian, m) + Seq::<u8>::empty() =~= number_bytes(endian, m));
    assert(signed(m) == signed(n) + d);
    assert(unsigned(signed(n)) == n);
}

/// Where neither coordinate is clamped, the opposite offset undoes a rewrite.
pub proof fn opposite_offset_undoes(body: Seq<u8>, endian: Endian, dx: i32, dy: i32)
    requires
        body.len() >= 8,
        dx != i32::MIN,
        dy != i32::MIN,
        i32::MIN <= i32_at(body, 0, endian) + dx <= i32::MAX,
        i32::MIN <= i32_at(body, 4, endian) + dy <= i32::MAX,
    ensures
        moved_body(moved_body(body, endian, (dx, dy)), endian, (-dx as i32, -dy as i32)) == body,
{
    let x = body.subrange(0, 4);
    let y = body.subrange(4, 8);
    let moved = moved_body(body, endian, (dx, dy));
    assert(i32_at(x, 0, endian) == i32_at(body, 0, endian));
    assert(i32_at(y, 0, endian) == i32_at(body, 4, endian));
    lemma_slot_undone(x, endian, dx);
    lemma_slot_undone(y, endian, dy);
    assert(moved.subrange(0, 4) =~= moved_slot(x, endian, dx));
    assert(moved.subrange(4, 8) =~= moved_slot(y, endian, dy));
    assert(moved.skip(8) =~= body.skip(8));
    assert(x + y + body.skip(8) =~= body);
}

/// The coordinate whose four bytes stand at `off`: least significant byte first,
/// or last, two's complement.
pub open spec fn coordinate_at(bytes: Seq<u8>, off: int, endian: Endian) -> int {
    let low = if endian == Endian::Little {
        bytes[off] + 256 * bytes[off + 1] + 65536 * bytes[off + 2]
    } else {
        bytes[off + 3] + 256 * bytes[off + 2] + 65536 * bytes[off + 1]
    };
    let top = if endian == Endian::Little {
        bytes[off + 3]
    } else {
        bytes[off]
    };
    if top < 128 {
        low + 16777216 * top
    } else {
        low + 16777216 * (top - 256)
    }
}

/// `after` is `before` moved by `d`, or stopped at the end of the range.
pub open spec fn is_moved(before: int, d: int, after: int) -> bool {
    &&& before + d > 2147483647 ==> after == 2147483647
    &&& before + d < -2147483648 ==> after == -2147483648
    &&& -2147483648 <= before + d <= 2147483647 ==> after == before + d
}

/// A body that is long enough for its method has its leading coordinates moved,
/// and is otherwise as it was; one that is too short is refused, with its length
/// and the length that was expected, and stays.
pub proof fn offsets_move_the_leading_pair(
    method: CursorMethod,
    endian: Endian,
    body: &mut [u8],
    delta: (i32, i32),
    r: Result<(), RewriteError>,
)
    requires
        call_ensures(apply_offset, (method, endian, body, delta), r),
    ensures
        ({
            let least: nat = if method == CursorMethod::SetCursorRectV2 {
                24
            } else if method == CursorMethod::SetCursorRect {
                16
            } else {
                8
            };
            &&& r is Ok <==> old(body)@.len() >= least
            &&& r is Ok ==> {
                &&& final(body)@.len() == old(body)@.len()
                &&& is_moved(
                    coordinate_at(old(body)@, 0, endian),
                    delta.0 as int,
                    coordinate_at(final(body)@, 0, endian),
                )
                &&& is_moved(
                    coordinate_at(old(body)@, 4, endian),
                    delta.1 as int,
                    coordinate_at(final(body)@, 4, endian),
                )
                &&& forall|i: int| 8 <= i < old(body)@.len() ==> final(body)@[i] == old(body)@[i]
            }
            &&& r matches Err(RewriteError::BodyTooShort { got, expected }) ==> {
                &&& got == old(body)@.len()
                &&& expected == least
                &&& final(body)@ == old(body)@
            }
        }),
{
    if r is Ok {
        lemma_moved_body(old(body)@, endian, delta);
    }
}

/// A moved body in numbers.
pub proof fn lemma_moved_body(body: Seq<u8>, endian: Endian, delta: (i32, i32))
    requires
        body.len() >= 8,
    ensures
        moved_body(body, endian, delta).len() == body.len(),
        is_moved(
            coordinate_at(body, 0, endian),
            delta.0 as int,
            coordinate_at(moved_body(body, endian, delta), 0, endian),
        ),
        is_moved(
            coordinate_at(body, 4, endian),
            delta.1 as int,
            coordinate_at(moved_body(body, endian, delta), 4, endian),
        ),
        forall|i: int|
            8 <= i < body.len() ==> #[trigger] moved_body(body, endian, delta)[i] == body[i],
{
    let moved = moved_body(body, endian, delta);
    rewrite_moves_only_the_origin(body, endian, delta);
    lemma_coordinate(body, 0, endian);
    lemma_coordinate(body, 4, endian);
    lemma_coordinate(moved, 0, endian);
    lemma_coordinate(moved, 4, endian);
    assert forall|i: int| 8 <= i < body.len() implies #[trigger] moved[i] == body[i] by {
        assert(moved.skip(8)[i - 8] == body.skip(8)[i - 8]);
    }
}

proof fn lemma_coordinate(bytes: Seq<u8>, off: int, endian: Endian)
    ensures
        i32_at(bytes, off, endian) == coordinate_at(bytes, off, endian),
{
    let (a, b, c, d) = if endian == Endian::Little {
        (bytes[off], bytes[off + 1], bytes[off + 2], bytes[off + 3])
    } else {
        (bytes[off + 3], bytes[off + 2], bytes[off + 1], bytes[off])
    };
    assert(join_bytes(a, b, c, d) == a + 0x100 * b + 0x1_0000 * c + 0x100_0000 * d);
}

/// The caret methods are told by interface, member and signature together: the
/// two of fcitx5 with four numbers, the first with a scale, and the one of fcitx4
/// with two. Nothing else is one.
pub proof fn caret_methods_are_recognised(header: Header, r: Option<CursorMethod>)
    requires
        call_ensures(classify, (&header,), r),
    ensures
        r == Some(CursorMethod::SetCursorRectV2) <==> is_call(
            header,
            "org.fcitx.Fcitx.InputContext1"@,
            "SetCursorRectV2"@,
            "iiiid"@,
        ),
        r == Some(CursorMethod::SetCursorRect) <==> is_call(
            header,
            "org.fcitx.Fcitx.InputContext1"@,
            "SetCursorRect"@,
            "iiii"@,
        ),
        r == Some(CursorMethod::SetCursorLocation) <==> is_call(
            header,
            "org.fcitx.Fcitx.InputContext"@,
            "SetCursorLocation"@,
            "ii"@,
        ),
{
    reveal_strlit("SetCursorRectV2");
    reveal_strlit("SetCursorRect");
    reveal_strlit("SetCursorLocation");
    assert("SetCursorRectV2"@.len() != "SetCursorRect"@.len());
    assert("SetCursorRectV2"@.len() != "SetCursorLocation"@.len());
    assert("SetCursorLocation"@.len() != "SetCursorRect"@.len());
}

/// A header with this interface, member and signature.
pub open spec fn is_call(
    header: Header,
    interface: Seq<char>,
    member: Seq<char>,
    signature: Seq<char>,
) -> bool {
    &&& header.interface is Some && header.interface->0@ == interface
    &&& header.member is Some && header.member->0@ == member
    &&& header.signature is Some && header.signature->0@ == signature
}

/// A caret body holds four bytes for each number: two for a place, four for a
/// rectangle, and a double besides for the second version. A body that is too
/// short is told with both lengths. `a` and `b` are these written out.
pub proof fn short_bodies_are_told(
    v2: usize,
    rect: usize,
    place: usize,
    e: RewriteError,
    r: String,
    a: &mut String,
    b: &mut String,
)
    requires
        call_ensures(CursorMethod::expected_body_len, (CursorMethod::SetCursorRectV2,), v2),
        call_ensures(CursorMethod::expected_body_len, (CursorMethod::SetCursorRect,), rect),
        call_ensures(CursorMethod::expected_body_len, (CursorMethod::SetCursorLocation,), place),
        call_ensures(RewriteError::message, (&e,), r),
        old(a)@.len() == 0,
        old(b)@.len() == 0,
        call_ensures(push_decimal, (a, e->got as u64), ()),
        call_ensures(push_decimal, (b, e->expected as u64), ()),
    ensures
        place == 2 * 4,
        rect == 4 * 4,
        v2 == rect + 8,
        r@ == "cursor body too short: got "@ + final(a)@ + " bytes, expected at least "@
            + final(b)@,
{
    assert(final(a)@ =~= decimal(e->got as nat));
    assert(final(b)@ =~= decimal(e->expected as nat));
}

} // verus!
