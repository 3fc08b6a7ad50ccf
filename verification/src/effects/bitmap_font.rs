//! A small pixel font for labels: digits and a few marks.
//!
//! A glyph is five columns of seven rows. In each column the lowest bit is the
//! top row.

use crate::effects::pixels::{
    byte_at, holds_image, lemma_byte_at, lemma_painted_nothing, lemma_painted_same,
    lemma_painted_union, painted, put_pixel,
};
use crate::geometry::{Point, Size};
use crate::text::chars_of;
use vstd::prelude::*;

verus! {

pub const GLYPH_W: i32 = 5;

pub const GLYPH_H: i32 = 7;

pub const GLYPH_SPACING: i32 = 1;

/// From one character to the next.
const ADVANCE: i32 = 6;

/// The columns of a character's glyph, where the font has it.
pub open spec fn glyph_columns(ch: char) -> Option<Seq<u8>> {
    match ch {
        '0' => Some(seq![0x3Eu8, 0x51u8, 0x49u8, 0x45u8, 0x3Eu8]),
        '1' => Some(seq![0x00u8, 0x42u8, 0x7Fu8, 0x40u8, 0x00u8]),
        '2' => Some(seq![0x42u8, 0x61u8, 0x51u8, 0x49u8, 0x46u8]),
        '3' => Some(seq![0x21u8, 0x41u8, 0x45u8, 0x4Bu8, 0x31u8]),
        '4' => Some(seq![0x18u8, 0x14u8, 0x12u8, 0x7Fu8, 0x10u8]),
        '5' => Some(seq![0x27u8, 0x45u8, 0x45u8, 0x45u8, 0x39u8]),
        '6' => Some(seq![0x3Cu8, 0x4Au8, 0x49u8, 0x49u8, 0x30u8]),
        '7' => Some(seq![0x01u8, 0x71u8, 0x09u8, 0x05u8, 0x03u8]),
        '8' => Some(seq![0x36u8, 0x49u8, 0x49u8, 0x49u8, 0x36u8]),
        '9' => Some(seq![0x06u8, 0x49u8, 0x49u8, 0x29u8, 0x1Eu8]),
        ' ' => Some(seq![0x00u8, 0x00u8, 0x00u8, 0x00u8, 0x00u8]),
        ',' => Some(seq![0x00u8, 0x50u8, 0x30u8, 0x00u8, 0x00u8]),
        ':' => Some(seq![0x00u8, 0x00u8, 0x36u8, 0x00u8, 0x00u8]),
        '(' => Some(seq![0x00u8, 0x1Cu8, 0x22u8, 0x41u8, 0x00u8]),
        ')' => Some(seq![0x00u8, 0x41u8, 0x22u8, 0x1Cu8, 0x00u8]),
        '-' => Some(seq![0x08u8, 0x08u8, 0x08u8, 0x08u8, 0x08u8]),
        _ => None,
    }
}

/// The columns of a character's glyph, where the font has it.
pub fn glyph(ch: char) -> (r: Option<[u8; 5]>)
    ensures
        match r {
            Some(columns) => glyph_columns(ch) == Some(columns@),
            None => glyph_columns(ch) is None,
        },
{
    let columns: [u8; 5] = match ch {
        '0' => [0x3E, 0x51, 0x49, 0x45, 0x3E],
        '1' => [0x00, 0x42, 0x7F, 0x40, 0x00],
        '2' => [0x42, 0x61, 0x51, 0x49, 0x46],
        '3' => [0x21, 0x41, 0x45, 0x4B, 0x31],
        '4' => [0x18, 0x14, 0x12, 0x7F, 0x10],
        '5' => [0x27, 0x45, 0x45, 0x45, 0x39],
        '6' => [0x3C, 0x4A, 0x49, 0x49, 0x30],
        '7' => [0x01, 0x71, 0x09, 0x05, 0x03],
        '8' => [0x36, 0x49, 0x49, 0x49, 0x36],
        '9' => [0x06, 0x49, 0x49, 0x29, 0x1E],
        ' ' => [0x00, 0x00, 0x00, 0x00, 0x00],
        ',' => [0x00, 0x50, 0x30, 0x00, 0x00],
        ':' => [0x00, 0x00, 0x36, 0x00, 0x00],
        '(' => [0x00, 0x1C, 0x22, 0x41, 0x00],
        ')' => [0x00, 0x41, 0x22, 0x1C, 0x00],
        '-' => [0x08, 0x08, 0x08, 0x08, 0x08],
        _ => return None,
    };
    assert(glyph_columns(ch)->0 =~= columns@);
    Some(columns)
}

/// The width of a text of `n` characters, without the space behind the last.
pub open spec fn width_of(n: int) -> int {
    if n == 0 {
        0
    } else {
        6 * n - 1
    }
}

/// The width of a text in pixels, without the space behind the last character.
pub fn label_width(text: &str) -> (r: i32)
    requires
        6 * text@.len() <= i32::MAX,
    ensures
        r == width_of(text@.len() as int),
{
    let n: i32 = chars_of(text).len() as i32;
    if n == 0 {
        0
    } else {
        n * ADVANCE - GLYPH_SPACING
    }
}

/// Row `r` of a column is lit.
pub open spec fn row_lit(column: u8, r: int) -> bool {
    (column >> (r as u8)) & 1 == 1
}

/// A text covers the pixel `dx` to the right of its top left corner and `dy`
/// below it.
pub open spec fn text_lit(text: Seq<char>, dx: int, dy: int) -> bool {
    &&& 0 <= dy < 7
    &&& 0 <= dx
    &&& dx / 6 < text.len()
    &&& dx % 6 < 5
    &&& glyph_columns(text[dx / 6]) matches Some(columns) && row_lit(columns[dx % 6], dy)
}

/// The pixels that a text covers, its top left corner at `(x, y)`.
pub open spec fn text_area(text: Seq<char>, x: int, y: int) -> spec_fn(int, int) -> bool {
    |px: int, py: int| text_lit(text, px - x, py - y)
}

/// What is covered by the first `i` characters, `c` columns of the next and `r`
/// rows of the column after them.
spec fn text_area_until(text: Seq<char>, x: int, y: int, i: int, c: int, r: int) -> spec_fn(
    int,
    int,
) -> bool {
    |px: int, py: int|
        text_lit(text, px - x, py - y) && ((px - x) / 6 < i || (px - x) / 6 == i && ((px - x) % 6 < c
            || (px - x) % 6 == c && py - y < r))
}

/// Draws a text with its top left corner at `pos`, as far as the image holds
/// it. Characters that the font lacks leave their place empty.
pub fn draw_text(data: &mut [u8], buf_size: Size, pos: Point, text: &str, color: &[u8; 4])
    requires
        holds_image(old(data)@, buf_size.w as int, buf_size.h as int),
        text@.len() <= i32::MAX,
    ensures
        painted(
            old(data)@,
            final(data)@,
            buf_size.w as int,
            buf_size.h as int,
            text_area(text@, pos.x as int, pos.y as int),
            color@,
        ),
{
    let chars = chars_of(text);
    let ghost before = data@;
    let ghost t = text@;
    let ghost w = buf_size.w as int;
    let ghost h = buf_size.h as int;
    let ghost x = pos.x as int;
    let ghost y = pos.y as int;
    let mut i: usize = 0;
    proof {
        lemma_painted_nothing(before, w, h, text_area_until(t, x, y, 0, 0, 0), color@);
    }
    while i < chars.len()
        invariant
            i <= chars@.len() <= i32::MAX,
            chars@ == t,
            w == buf_size.w,
            h == buf_size.h,
            x == pos.x,
            y == pos.y,
            holds_image(data@, w, h),
            painted(before, data@, w, h, text_area_until(t, x, y, i as int, 0, 0), color@),
        decreases chars@.len() - i,
    {
        match glyph(chars[i]) {
            Some(columns) => {
                let mut c: usize = 0;
                while c < 5
                    invariant
                        c <= 5,
                        i < chars@.len() <= i32::MAX,
                        chars@ == t,
                        w == buf_size.w,
                        h == buf_size.h,
                        x == pos.x,
                        y == pos.y,
                        glyph_columns(t[i as int]) == Some(columns@),
                        holds_image(data@, w, h),
                        painted(
                            before,
                            data@,
                            w,
                            h,
                            text_area_until(t, x, y, i as int, c as int, 0),
                            color@,
                        ),
                    decreases 5 - c,
                {
                    let column: u8 = columns[c];
                    let mut r: u8 = 0;
                    while r < 7
                        invariant
                            r <= 7,
                            c < 5,
                            column == columns@[c as int],
                            i < chars@.len() <= i32::MAX,
                            chars@ == t,
                            w == buf_size.w,
                            h == buf_size.h,
                            x == pos.x,
                            y == pos.y,
                            glyph_columns(t[i as int]) == Some(columns@),
                            holds_image(data@, w, h),
                            painted(
                                before,
                                data@,
                                w,
                                h,
                                text_area_until(t, x, y, i as int, c as int, r as int),
                                color@,
                            ),
                        decreases 7 - r,
                    {
                        let ghost here = data@;
                        let ghost now = text_area_until(t, x, y, i as int, c as int, r as int);
                        let ghost next = text_area_until(t, x, y, i as int, c as int, r + 1);
                        if (column >> r) & 1 == 1 {
                            let px: i64 = pos.x as i64 + 6 * (i as i64) + c as i64;
                            let py: i64 = pos.y as i64 + r as i64;
                            put_pixel(data, buf_size.w, buf_size.h, px, py, color);
                            proof {
                                let dot = |qx: int, qy: int| qx == px && qy == py;
                                assert forall|qx: int, qy: int|
                                    0 <= qx < w && 0 <= qy < h implies #[trigger] next(qx, qy) == (
                                now(qx, qy) || dot(qx, qy)) by {
                                    if dot(qx, qy) {
                                        assert((qx - x) / 6 == i && (qx - x) % 6 == c);
                                        assert(row_lit(columns@[c as int], r as int));
                                    }
                                }
                                lemma_painted_union(
                                    before,
                                    here,
                                    data@,
                                    w,
                                    h,
                                    now,
                                    dot,
                                    next,
                                    color@,
                                );
                            }
                        } else {
                            proof {
                                assert forall|qx: int, qy: int|
                                    0 <= qx < w && 0 <= qy < h implies #[trigger] next(qx, qy)
                                    == now(qx, qy) by {
                                    if next(qx, qy) && !now(qx, qy) {
                                        assert((qx - x) / 6 == i && (qx - x) % 6 == c && qy - y
                                            == r);
                                        assert(!row_lit(columns@[c as int], r as int));
                                    }
                                }
                                lemma_painted_same(before, data@, w, h, now, next, color@);
                            }
                        }
                        r += 1;
                    }
                    proof {
                        lemma_painted_same(
                            before,
                            data@,
                            w,
                            h,
                            text_area_until(t, x, y, i as int, c as int, 7),
                            text_area_until(t, x, y, i as int, c + 1, 0),
                            color@,
                        );
                    }
                    c += 1;
                }
                proof {
                    lemma_painted_same(
                        before,
                        data@,
                        w,
                        h,
                        text_area_until(t, x, y, i as int, 5, 0),
                        text_area_until(t, x, y, i + 1, 0, 0),
                        color@,
                    );
                }
            },
            None => {
                proof {
                    lemma_painted_same(
                        before,
                        data@,
                        w,
                        h,
                        text_area_until(t, x, y, i as int, 0, 0),
                        text_area_until(t, x, y, i + 1, 0, 0),
                        color@,
                    );
                }
            },
        }
        i += 1;
    }
    proof {
        lemma_painted_same(
            before,
            data@,
            w,
            h,
            text_area_until(t, x, y, i as int, 0, 0),
            text_area(t, x, y),
            color@,
        );
    }
}

/// The font has the ten digits and the six marks, and no other character. No two
/// of them look alike, and none reaches below the seven rows.
pub proof fn glyphs_are_told_apart(a: char, b: char, g: Option<[u8; 5]>, h: Option<[u8; 5]>)
    requires
        call_ensures(glyph, (a,), g),
        call_ensures(glyph, (b,), h),
    ensures
        (g is Some) == ('0' <= a <= '9' || a == ' ' || a == ',' || a == ':' || a == '(' || a == ')'
            || a == '-'),
        g matches Some(x) ==> forall|i: int| 0 <= i < 5 ==> #[trigger] x@[i] < 128,
        g matches Some(x) ==> (h matches Some(y) ==> (x@ == y@ ==> a == b)),
{
    if let Some(x) = g {
        if let Some(y) = h {
            if x@ == y@ {
                assert(x@[0] == y@[0] && x@[1] == y@[1] && x@[2] == y@[2] && x@[3] == y@[3]
                    && x@[4] == y@[4]);
            }
        }
    }
}

/// The brackets are mirror images of each other.
pub proof fn brackets_are_mirrored(g: Option<[u8; 5]>, h: Option<[u8; 5]>, i: int)
    requires
        call_ensures(glyph, ('(',), g),
        call_ensures(glyph, (')',), h),
        0 <= i < 5,
    ensures
        g matches Some(x) && (h matches Some(y) && x@[i] == y@[4 - i]),
{
}

/// A character is five pixels wide, and each one more takes six.
pub proof fn characters_take_six_pixels(a: &str, b: &str, p: i32, q: i32)
    requires
        call_ensures(label_width, (a,), p),
        call_ensures(label_width, (b,), q),
        b@.len() == a@.len() + 1,
    ensures
        a@.len() == 0 ==> p == 0 && q == 5,
        a@.len() > 0 ==> q == p + 6,
{
}

/// Each character of a text is drawn with its glyph, six pixels behind the one
/// before it: a pixel has the text's color where its row is lit in its column of
/// the glyph. Between two characters, and where the font has no glyph, nothing is
/// drawn.
pub proof fn texts_are_drawn_glyph_by_glyph(
    data: &mut [u8],
    size: Size,
    pos: Point,
    text: &str,
    color: &[u8; 4],
    i: int,
    g: Option<[u8; 5]>,
    col: int,
    row: int,
    c: int,
)
    requires
        call_ensures(draw_text, (data, size, pos, text, color), ()),
        4 * (size.w * size.h) <= old(data)@.len(),
        0 <= i < text@.len(),
        call_ensures(glyph, (text@[i],), g),
        0 <= col < 6,
        0 <= row < 7,
        0 <= c < 4,
        0 <= pos.x + 6 * i + col < size.w,
        0 <= pos.y + row < size.h,
    ensures
        final(data)@.len() == old(data)@.len(),
        ({
            let k = byte_at(size.w as int, pos.x + 6 * i + col, pos.y + row, c);
            let lit = col < 5 && (g matches Some(columns) && (columns@[col] >> (row as u8)) & 1
                == 1);
            if lit {
                final(data)@[k] == color@[c]
            } else {
                final(data)@[k] == old(data)@[k]
            }
        }),
{
    let x = pos.x + 6 * i + col;
    let y = pos.y + row;
    lemma_byte_at(size.w as int, size.h as int, x, y, c);
    assert((6 * i + col) / 6 == i && (6 * i + col) % 6 == col);
    assert(text_area(text@, pos.x as int, pos.y as int)(x, y) == text_lit(
        text@,
        6 * i + col,
        row,
    ));
}

/// Outside of the seven rows of a text, left of it and behind its last character
/// nothing is drawn.
pub proof fn texts_keep_to_their_line(
    data: &mut [u8],
    size: Size,
    pos: Point,
    text: &str,
    color: &[u8; 4],
    x: int,
    y: int,
    c: int,
)
    requires
        call_ensures(draw_text, (data, size, pos, text, color), ()),
        4 * (size.w * size.h) <= old(data)@.len(),
        0 <= x < size.w,
        0 <= y < size.h,
        0 <= c < 4,
        y < pos.y || y >= pos.y + 7 || x < pos.x || x >= pos.x + 6 * text@.len(),
    ensures
        final(data)@[byte_at(size.w as int, x, y, c)] == old(data)@[byte_at(
            size.w as int,
            x,
            y,
            c,
        )],
{
    lemma_byte_at(size.w as int, size.h as int, x, y, c);
    assert(text_area(text@, pos.x as int, pos.y as int)(x, y) == text_lit(
        text@,
        x - pos.x,
        y - pos.y,
    ));
}

} // verus!
