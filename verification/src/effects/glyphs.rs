//! Text in the fonts of the system, blended onto an image.
//!
//! The fonts give a text as rectangles of color, mostly single pixels; each is
//! mixed into what the image shows below it.

use crate::effects::pixels::{byte_at, lemma_byte_at, lemma_column, lemma_place, lies_in, rectangle};
use cosmic_text::fallback::FontFallbackIter;
use cosmic_text::{Attrs, Buffer, BufferLine, Color, FontSystem, SwashCache, Weight};
use vstd::prelude::*;

verus! {

#[derive(Debug, Clone, Copy, PartialEq, Eq, Structural)]
pub struct Ink {
    pub r: u8,
    pub g: u8,
    pub b: u8,
    pub a: u8,
}

/// A rectangle of a drawn text.
#[derive(Debug, Clone, Copy, PartialEq, Eq, Structural)]
pub struct GlyphRect {
    pub x: i32,
    pub y: i32,
    pub w: u32,
    pub h: u32,
    pub ink: Ink,
}

/// What becomes of the image's alpha.
#[derive(Debug, Clone, Copy, PartialEq, Eq, Structural)]
pub enum AlphaRule {
    /// It grows towards opaque, as the ink covers it.
    Over,
    /// It becomes opaque.
    Opaque,
}

/// A share `a` of 255 of the source over the rest of the destination.
pub open spec fn mixed(d: u8, s: u8, a: u8) -> u8 {
    ((d * (255 - a) + s * a) / 255) as u8
}

/// Channel `c` of a pixel with value `d` under this ink.
pub open spec fn blended(d: u8, c: int, ink: Ink, rule: AlphaRule) -> u8 {
    if c == 0 {
        mixed(d, ink.b, ink.a)
    } else if c == 1 {
        mixed(d, ink.g, ink.a)
    } else if c == 2 {
        mixed(d, ink.r, ink.a)
    } else {
        match rule {
            AlphaRule::Over => mixed(d, 255, ink.a),
            AlphaRule::Opaque => 255,
        }
    }
}

/// The image with an area blended. Ink without alpha leaves no trace, and
/// pixels of which the bytes hold only a part are left alone.
pub open spec fn inked(
    before: Seq<u8>,
    w: int,
    h: int,
    area: spec_fn(int, int) -> bool,
    ink: Ink,
    rule: AlphaRule,
) -> Seq<u8> {
    Seq::new(
        before.len(),
        |k: int|
            if ink.a != 0 && 4 * (k / 4) + 4 <= before.len() && lies_in(k, w, h, area) {
                blended(before[k], k % 4, ink, rule)
            } else {
                before[k]
            },
    )
}

/// A length as a signed number; what has none is no length.
pub open spec fn extent(n: u32) -> int {
    if n <= i32::MAX {
        n as int
    } else {
        0
    }
}

/// What a rectangle of a text covers, the text's origin at `(dx, dy)`.
pub open spec fn glyph_area(g: GlyphRect, dx: int, dy: int) -> spec_fn(int, int) -> bool {
    rectangle(g.x + dx, g.y + dy, extent(g.w), extent(g.h))
}

/// The image with the rectangles of a text blended one after the other.
pub open spec fn all_inked(
    before: Seq<u8>,
    w: int,
    h: int,
    glyphs: Seq<GlyphRect>,
    dx: int,
    dy: int,
    rule: AlphaRule,
) -> Seq<u8>
    decreases glyphs.len(),
{
    if glyphs.len() == 0 {
        before
    } else {
        inked(
            all_inked(before, w, h, glyphs.drop_last(), dx, dy, rule),
            w,
            h,
            glyph_area(glyphs.last(), dx, dy),
            glyphs.last().ink,
            rule,
        )
    }
}

fn mix(d: u8, s: u8, a: u8) -> (r: u8)
    ensures
        r == mixed(d, s, a),
{
    let inv: u32 = 255 - a as u32;
    assert(d * inv + s * a <= 255 * 255 && d * inv <= 255 * 255 && s * a <= 255 * 255)
        by (nonlinear_arith)
        requires
            0 <= d <= 255,
            0 <= s <= 255,
            0 <= a <= 255,
            inv == 255 - a,
    ;
    ((d as u32 * inv + s as u32 * a as u32) / 255) as u8
}

/// Blends the pixel in column `x` and row `y`, where the image has it.
fn blend_pixel(data: &mut [u8], w: i32, h: i32, x: i64, y: i64, ink: Ink, rule: AlphaRule)
    requires
        ink.a != 0,
    ensures
        final(data)@ == inked(
            old(data)@,
            w as int,
            h as int,
            |px: int, py: int| px == x && py == y,
            ink,
            rule,
        ),
{
    let ghost before = data@;
    let ghost area = |px: int, py: int| px == x && py == y;
    if x < 0 || x >= w as i64 || y < 0 || y >= h as i64 {
        assert(data@ =~= inked(before, w as int, h as int, area, ink, rule)) by {
            assert forall|k: int| 0 <= k < before.len() implies !lies_in(
                k,
                w as int,
                h as int,
                area,
            ) by {
                if w > 0 {
                    lemma_column(k / 4, w as int);
                }
            }
        }
        return;
    }
    let ghost p = y * w + x;
    proof {
        lemma_place(p, w as int, h as int, x as int, y as int);
        assert(y * w <= 0x7fff_ffff * 0x7fff_ffff) by (nonlinear_arith)
            requires
                0 <= y <= 0x7fff_ffff,
                0 <= w <= 0x7fff_ffff,
        ;
    }
    let place: u64 = y as u64 * w as u64 + x as u64;
    let room: usize = data.len() / 4;
    if place >= room as u64 {
        assert(data@ =~= inked(before, w as int, h as int, area, ink, rule)) by {
            assert forall|k: int|
                0 <= k < before.len() && 4 * (k / 4) + 4 <= before.len() implies !lies_in(
                k,
                w as int,
                h as int,
                area,
            ) by {
                lemma_column(k / 4, w as int);
                if lies_in(k, w as int, h as int, area) {
                    assert(w * y == y * w) by (nonlinear_arith);
                }
            }
        }
        return;
    }
    let off: usize = place as usize * 4;
    let b: u8 = mix(data[off], ink.b, ink.a);
    let g: u8 = mix(data[off + 1], ink.g, ink.a);
    let r: u8 = mix(data[off + 2], ink.r, ink.a);
    let a: u8 = match rule {
        AlphaRule::Over => mix(data[off + 3], 255, ink.a),
        AlphaRule::Opaque => 255,
    };
    data[off] = b;
    data[off + 1] = g;
    data[off + 2] = r;
    data[off + 3] = a;
    proof {
        let after = data@;
        let want = inked(before, w as int, h as int, area, ink, rule);
        assert forall|k: int| 0 <= k < before.len() implies after[k] == want[k] by {
            lemma_column(k / 4, w as int);
            if k / 4 == p {
                assert(k == 4 * p + k % 4);
            } else {
                assert(after[k] == before[k]);
                if lies_in(k, w as int, h as int, area) {
                    assert(w * y == y * w) by (nonlinear_arith);
                }
            }
        }
        assert(after =~= want);
    }
}

/// Blending two areas that share no pixel is blending their union.
proof fn lemma_inked_union(
    a: Seq<u8>,
    w: int,
    h: int,
    first: spec_fn(int, int) -> bool,
    second: spec_fn(int, int) -> bool,
    both: spec_fn(int, int) -> bool,
    ink: Ink,
    rule: AlphaRule,
)
    requires
        forall|x: int, y: int|
            0 <= x < w && 0 <= y < h ==> #[trigger] both(x, y) == (first(x, y) || second(x, y))
                && !(first(x, y) && second(x, y)),
    ensures
        inked(inked(a, w, h, first, ink, rule), w, h, second, ink, rule) == inked(
            a,
            w,
            h,
            both,
            ink,
            rule,
        ),
{
    let x = inked(inked(a, w, h, first, ink, rule), w, h, second, ink, rule);
    let y = inked(a, w, h, both, ink, rule);
    assert forall|k: int| 0 <= k < a.len() implies x[k] == y[k] by {
        if w > 0 && (k / 4) / w < h {
            lemma_column(k / 4, w);
            assert(both((k / 4) % w, (k / 4) / w) == (first((k / 4) % w, (k / 4) / w) || second(
                (k / 4) % w,
                (k / 4) / w,
            )));
        }
    }
    assert(x =~= y);
}

/// Areas that agree on the image are blended alike; with an empty area nothing
/// changes.
proof fn lemma_inked_same(
    a: Seq<u8>,
    w: int,
    h: int,
    first: spec_fn(int, int) -> bool,
    second: spec_fn(int, int) -> bool,
    ink: Ink,
    rule: AlphaRule,
)
    requires
        forall|x: int, y: int|
            0 <= x < w && 0 <= y < h ==> #[trigger] second(x, y) == first(x, y),
    ensures
        inked(a, w, h, first, ink, rule) == inked(a, w, h, second, ink, rule),
{
    let x = inked(a, w, h, first, ink, rule);
    let y = inked(a, w, h, second, ink, rule);
    assert forall|k: int| 0 <= k < a.len() implies x[k] == y[k] by {
        if w > 0 && (k / 4) / w < h {
            lemma_column(k / 4, w);
            assert(second((k / 4) % w, (k / 4) / w) == first((k / 4) % w, (k / 4) / w));
        }
    }
    assert(x =~= y);
}

proof fn lemma_inked_nothing(
    a: Seq<u8>,
    w: int,
    h: int,
    area: spec_fn(int, int) -> bool,
    ink: Ink,
    rule: AlphaRule,
)
    requires
        ink.a == 0 || forall|x: int, y: int| 0 <= x < w && 0 <= y < h ==> !#[trigger] area(x, y),
    ensures
        inked(a, w, h, area, ink, rule) == a,
{
    assert forall|k: int| 0 <= k < a.len() implies inked(a, w, h, area, ink, rule)[k] == a[k] by {
        if w > 0 && (k / 4) / w < h {
            lemma_column(k / 4, w);
            if ink.a != 0 {
                assert(!area((k / 4) % w, (k / 4) / w));
            }
        }
    }
    assert(inked(a, w, h, area, ink, rule) =~= a);
}

/// Blends what the image holds of a rectangle.
fn blend_rect(
    data: &mut [u8],
    buf_w: i32,
    buf_h: i32,
    x: i64,
    y: i64,
    w: u32,
    h: u32,
    ink: Ink,
    rule: AlphaRule,
)
    requires
        -0x1_0000_0000 <= x <= 0x1_0000_0000,
        -0x1_0000_0000 <= y <= 0x1_0000_0000,
    ensures
        final(data)@ == inked(
            old(data)@,
            buf_w as int,
            buf_h as int,
            rectangle(x as int, y as int, extent(w), extent(h)),
            ink,
            rule,
        ),
{
    let ghost before = data@;
    let ghost bw = buf_w as int;
    let ghost bh = buf_h as int;
    let ghost whole = rectangle(x as int, y as int, extent(w), extent(h));
    let right: i64 = if w <= 0x7fff_ffff {
        x + w as i64
    } else {
        x
    };
    let bottom: i64 = if h <= 0x7fff_ffff {
        y + h as i64
    } else {
        y
    };
    let x0: i64 = if x >= 0 {
        x
    } else {
        0
    };
    let y0: i64 = if y >= 0 {
        y
    } else {
        0
    };
    let x1: i64 = if right <= buf_w as i64 {
        right
    } else {
        buf_w as i64
    };
    let y1: i64 = if bottom <= buf_h as i64 {
        bottom
    } else {
        buf_h as i64
    };
    if ink.a == 0 || x1 <= x0 || y1 <= y0 {
        proof {
            lemma_inked_nothing(before, bw, bh, whole, ink, rule);
        }
        return;
    }
    let mut row: i64 = y0;
    proof {
        lemma_inked_nothing(
            before,
            bw,
            bh,
            rectangle(x0 as int, y0 as int, x1 - x0, 0),
            ink,
            rule,
        );
    }
    while row < y1
        invariant
            ink.a != 0,
            0 <= y0 <= row <= y1 <= buf_h,
            0 <= x0 < x1 <= buf_w,
            bw == buf_w,
            bh == buf_h,
            data@ == inked(
                before,
                bw,
                bh,
                rectangle(x0 as int, y0 as int, x1 - x0, row - y0),
                ink,
                rule,
            ),
        decreases y1 - row,
    {
        let ghost start = data@;
        let mut col: i64 = x0;
        proof {
            lemma_inked_nothing(start, bw, bh, rectangle(x0 as int, row as int, 0, 1), ink, rule);
        }
        while col < x1
            invariant
                ink.a != 0,
                0 <= row < buf_h,
                0 <= x0 <= col <= x1 <= buf_w,
                bw == buf_w,
                bh == buf_h,
                data@ == inked(
                    start,
                    bw,
                    bh,
                    rectangle(x0 as int, row as int, col - x0, 1),
                    ink,
                    rule,
                ),
            decreases x1 - col,
        {
            blend_pixel(data, buf_w, buf_h, col, row, ink, rule);
            proof {
                lemma_inked_union(
                    start,
                    bw,
                    bh,
                    rectangle(x0 as int, row as int, col - x0, 1),
                    |px: int, py: int| px == col && py == row,
                    rectangle(x0 as int, row as int, col + 1 - x0, 1),
                    ink,
                    rule,
                );
            }
            col += 1;
        }
        proof {
            lemma_inked_union(
                before,
                bw,
                bh,
                rectangle(x0 as int, y0 as int, x1 - x0, row - y0),
                rectangle(x0 as int, row as int, x1 - x0, 1),
                rectangle(x0 as int, y0 as int, x1 - x0, row + 1 - y0),
                ink,
                rule,
            );
        }
        row += 1;
    }
    proof {
        lemma_inked_same(
            before,
            bw,
            bh,
            rectangle(x0 as int, y0 as int, x1 - x0, y1 - y0),
            whole,
            ink,
            rule,
        );
    }
}

/// Blends the rectangles of a text, its origin at `(dx, dy)`.
pub fn blend_glyphs(
    data: &mut [u8],
    w: i32,
    h: i32,
    glyphs: &[GlyphRect],
    dx: i32,
    dy: i32,
    rule: AlphaRule,
)
    ensures
        final(data)@ == all_inked(
            old(data)@,
            w as int,
            h as int,
            glyphs@,
            dx as int,
            dy as int,
            rule,
        ),
{
    let ghost before = data@;
    let mut i: usize = 0;
    assert(glyphs@.take(0) =~= seq![]);
    while i < glyphs.len()
        invariant
            i <= glyphs@.len(),
            data@ == all_inked(
                before,
                w as int,
                h as int,
                glyphs@.take(i as int),
                dx as int,
                dy as int,
                rule,
            ),
        decreases glyphs@.len() - i,
    {
        let g = glyphs[i];
        blend_rect(
            data,
            w,
            h,
            g.x as i64 + dx as i64,
            g.y as i64 + dy as i64,
            g.w,
            g.h,
            g.ink,
            rule,
        );
        assert(glyphs@.take(i + 1).drop_last() =~= glyphs@.take(i as int));
        i += 1;
    }
    assert(glyphs@.take(i as int) =~= glyphs@);
}

/// Opaque ink replaces the color below it; ink without alpha leaves it.
pub proof fn ink_covers_by_its_alpha(d: u8, s: u8)
    ensures
        mixed(d, s, 255) == s,
        mixed(d, s, 0) == d,
{
}

// ---------------------------------------------------------------------------
// Drawing with the system's fonts
// ---------------------------------------------------------------------------

#[verifier::external_type_specification]
#[verifier::external_body]
pub struct ExBuffer(cosmic_text::Buffer);

#[verifier::external_type_specification]
#[verifier::external_body]
pub struct ExFontSystem(cosmic_text::FontSystem);

#[verifier::external_type_specification]
#[verifier::external_body]
pub struct ExSwashCache(cosmic_text::SwashCache);

/// A line of a text: its characters and the weights that they are set in.
struct TextLine {
    text: Vec<char>,
    weights: Vec<u16>,
}

/// The lines of a text: the characters of each, and the weights that they are
/// set in.
pub uninterp spec fn lines_of(buffer: Buffer) -> Seq<(Seq<char>, Seq<u16>)>;

/// The weights at which a font system holds a font that every text can fall
/// back to.
pub uninterp spec fn held_weights(fonts: FontSystem) -> Set<u16>;

/// A text with these lines can be drawn with these rectangles where its color
/// is this ink.
pub uninterp spec fn drawn_in(
    lines: Seq<(Seq<char>, Seq<u16>)>,
    glyphs: Seq<GlyphRect>,
    ink: Ink,
) -> bool;

/// The characters that end a paragraph.
pub open spec fn ends_paragraph(c: char) -> bool {
    c == '\u{a}' || c == '\u{d}' || '\u{1c}' <= c <= '\u{1e}' || c == '\u{85}' || c
        == '\u{2029}'
}

/// The characters that are written from right to left lie in these ranges.
pub open spec fn right_to_left(c: char) -> bool {
    ||| '\u{590}' <= c <= '\u{8ff}'
    ||| c == '\u{200f}'
    ||| '\u{fb1d}' <= c <= '\u{fdff}'
    ||| '\u{fe70}' <= c <= '\u{feff}'
    ||| '\u{10800}' <= c <= '\u{10fff}'
    ||| '\u{1e800}' <= c <= '\u{1efff}'
}

/// The paragraphs of a line have one direction: there is only one of them, or
/// nothing in the line is written from right to left.
pub open spec fn one_direction(line: Seq<char>) -> bool {
    ||| forall|i: int| 0 <= i < line.len() ==> !ends_paragraph(#[trigger] line[i])
    ||| forall|i: int| 0 <= i < line.len() ==> !right_to_left(#[trigger] line[i])
}

/// The controls that open an embedding, an override or an isolate.
pub open spec fn opens_level(c: char) -> bool {
    ||| '\u{202a}' <= c <= '\u{202b}'
    ||| '\u{202d}' <= c <= '\u{202e}'
    ||| '\u{2066}' <= c <= '\u{2068}'
}

/// How many levels a line opens.
pub open spec fn levels_opened(line: Seq<char>) -> nat
    decreases line.len(),
{
    if line.len() == 0 {
        0
    } else if opens_level(line.last()) {
        levels_opened(line.drop_last()) + 1
    } else {
        levels_opened(line.drop_last())
    }
}

/// The runs of a line can be put in order: its paragraphs have one direction,
/// and its levels stay below the highest that there is.
pub open spec fn can_order(line: Seq<char>) -> bool {
    one_direction(line) && levels_opened(line) <= 61
}

/// The text can be shaped where the font system holds fonts at these weights.
pub open spec fn can_shape(lines: Seq<(Seq<char>, Seq<u16>)>, held: Set<u16>) -> bool {
    forall|i: int|
        0 <= i < lines.len() ==> can_order((#[trigger] lines[i]).0) && forall|k: int|
            0 <= k < lines[i].1.len() ==> held.contains(#[trigger] lines[i].1[k])
}

/// `cosmic_text::BufferLine::text` and `attrs_list` of each line: its
/// characters, and the weights of its spans and of what lies between them.
#[verifier::external_body]
fn text_lines(buffer: &Buffer) -> (r: Vec<TextLine>)
    ensures
        r@.len() == lines_of(*buffer).len(),
        forall|i: int|
            0 <= i < r@.len() ==> (#[trigger] r@[i]).text@ == lines_of(*buffer)[i].0
                && r@[i].weights@ == lines_of(*buffer)[i].1,
{
    let line_of = |line: &BufferLine| {
        let attrs = line.attrs_list();
        let mut weights: Vec<u16> = attrs.spans_iter().map(|span| span.1.weight.0).collect();
        weights.push(attrs.defaults().weight.0);
        TextLine { text: line.text().chars().collect(), weights }
    };
    buffer.lines.iter().map(line_of).collect()
}

/// `cosmic_text::fallback::FontFallbackIter` over the matches of
/// `cosmic_text::FontSystem::get_font_matches`, without a family and without
/// scripts to prefer: whether it comes to a font at this weight. That is a font
/// that every search at this weight comes to at the latest. It stays in the
/// font system, and so do the fonts that were found before.
#[verifier::external_body]
fn find_font(fonts: &mut FontSystem, weight: u16) -> (r: bool)
    ensures
        r == held_weights(*final(fonts)).contains(weight),
        held_weights(*old(fonts)).subset_of(held_weights(*final(fonts))),
{
    let keys = fonts.get_font_matches(&Attrs::new().weight(Weight(weight)));
    FontFallbackIter::new(fonts, &keys, &[], &[], "", Weight(weight)).next().is_some()
}

/// Adds a rectangle to the list.
fn note_rect(glyphs: &mut Vec<GlyphRect>, x: i32, y: i32, w: u32, h: u32, ink: Ink)
    ensures
        final(glyphs)@ == old(glyphs)@.push(GlyphRect { x, y, w, h, ink }),
{
    glyphs.push(GlyphRect { x, y, w, h, ink });
}

/// `cosmic_text::Buffer::draw`: the rectangles that a text is drawn with in
/// this color, in the order in which they are drawn. A text that is not shaped
/// and laid out yet is so first, for which each of its weights needs a font,
/// and each of its lines one direction and levels that are not nested too deep.
/// The text itself stays, and so do the fonts. Which rectangles they are depends
/// on the fonts of the machine, and is not said; nor is the ink of each, for
/// fonts and texts can bring colors of their own.
#[verifier::external_body]
fn glyph_rects(
    buffer: &mut Buffer,
    fonts: &mut FontSystem,
    cache: &mut SwashCache,
    color: Ink,
) -> (r: Vec<GlyphRect>)
    requires
        can_shape(lines_of(*old(buffer)), held_weights(*old(fonts))),
    ensures
        drawn_in(lines_of(*old(buffer)), r@, color),
        lines_of(*final(buffer)) == lines_of(*old(buffer)),
        held_weights(*old(fonts)).subset_of(held_weights(*final(fonts))),
{
    let mut glyphs: Vec<GlyphRect> = Vec::new();
    let color = Color::rgba(color.r, color.g, color.b, color.a);
    buffer.draw(
        fonts,
        cache,
        color,
        |x, y, w, h, c| {
            note_rect(&mut glyphs, x, y, w, h, Ink { r: c.r(), g: c.g(), b: c.b(), a: c.a() })
        },
    );
    glyphs
}

fn is_right_to_left(c: char) -> (r: bool)
    ensures
        r == right_to_left(c),
{
    ('\u{590}' <= c && c <= '\u{8ff}') || c == '\u{200f}' || ('\u{fb1d}' <= c && c <= '\u{fdff}')
        || ('\u{fe70}' <= c && c <= '\u{feff}') || ('\u{10800}' <= c && c <= '\u{10fff}') || (
    '\u{1e800}' <= c && c <= '\u{1efff}')
}

/// Whether the paragraphs of a line have one direction.
pub fn has_one_direction(line: &[char]) -> (r: bool)
    ensures
        r == one_direction(line@),
{
    let mut one = true;
    let mut left_to_right = true;
    let mut i: usize = 0;
    while i < line.len()
        invariant
            i <= line@.len(),
            one == forall|k: int| 0 <= k < i ==> !ends_paragraph(#[trigger] line@[k]),
            left_to_right == forall|k: int| 0 <= k < i ==> !right_to_left(#[trigger] line@[k]),
        decreases line@.len() - i,
    {
        let c = line[i];
        if c == '\u{a}' || c == '\u{d}' || ('\u{1c}' <= c && c <= '\u{1e}') || c == '\u{85}' || c
            == '\u{2029}' {
            assert(ends_paragraph(line@[i as int]));
            one = false;
        }
        if is_right_to_left(c) {
            assert(right_to_left(line@[i as int]));
            left_to_right = false;
        }
        i += 1;
    }
    one || left_to_right
}

/// How many levels a line opens.
pub fn count_levels(line: &[char]) -> (r: usize)
    ensures
        r == levels_opened(line@),
{
    let mut count: usize = 0;
    let mut i: usize = 0;
    assert(line@.take(0) =~= seq![]);
    while i < line.len()
        invariant
            count <= i <= line@.len(),
            count == levels_opened(line@.take(i as int)),
        decreases line@.len() - i,
    {
        assert(line@.take(i + 1).drop_last() =~= line@.take(i as int));
        let c = line[i];
        if ('\u{202a}' <= c && c <= '\u{202b}') || ('\u{202d}' <= c && c <= '\u{202e}') || (
        '\u{2066}' <= c && c <= '\u{2068}') {
            count += 1;
        }
        i += 1;
    }
    assert(line@.take(i as int) =~= line@);
    count
}

/// Looks for fonts for a text. Whether it can be shaped with those that the
/// font system then holds.
pub fn find_fonts(buffer: &Buffer, fonts: &mut FontSystem) -> (r: bool)
    ensures
        r == can_shape(lines_of(*buffer), held_weights(*final(fonts))),
        held_weights(*old(fonts)).subset_of(held_weights(*final(fonts))),
{
    let lines = text_lines(buffer);
    let ghost wanted = lines_of(*buffer);
    let mut i: usize = 0;
    while i < lines.len()
        invariant
            i <= lines@.len() == wanted.len(),
            wanted == lines_of(*buffer),
            forall|j: int|
                0 <= j < lines@.len() ==> (#[trigger] lines@[j]).text@ == wanted[j].0
                    && lines@[j].weights@ == wanted[j].1,
            can_shape(wanted.take(i as int), held_weights(*fonts)),
            held_weights(*old(fonts)).subset_of(held_weights(*fonts)),
        decreases lines@.len() - i,
    {
        let line = &lines[i];
        if !has_one_direction(line.text.as_slice()) || count_levels(line.text.as_slice()) > 61 {
            assert(!can_order(wanted[i as int].0));
            return false;
        }
        let mut k: usize = 0;
        while k < line.weights.len()
            invariant
                i < lines@.len() == wanted.len(),
                wanted == lines_of(*buffer),
                line.weights@ == wanted[i as int].1,
                k <= line.weights@.len(),
                can_shape(wanted.take(i as int), held_weights(*fonts)),
                forall|m: int|
                    0 <= m < k ==> held_weights(*fonts).contains(
                        #[trigger] wanted[i as int].1[m],
                    ),
                held_weights(*old(fonts)).subset_of(held_weights(*fonts)),
            decreases line.weights@.len() - k,
        {
            let weight: u16 = line.weights[k];
            let ghost before = held_weights(*fonts);
            let found = find_font(fonts, weight);
            proof {
                lemma_more_fonts(wanted.take(i as int), before, held_weights(*fonts));
            }
            if !found {
                assert(!held_weights(*fonts).contains(wanted[i as int].1[k as int]));
                return false;
            }
            k += 1;
        }
        proof {
            let longer = wanted.take(i + 1);
            assert forall|j: int| 0 <= j < longer.len() implies can_order(
                (#[trigger] longer[j]).0,
            ) && forall|m: int|
                0 <= m < longer[j].1.len() ==> held_weights(*fonts).contains(
                    #[trigger] longer[j].1[m],
                ) by {
                if j < i {
                    assert(longer[j] == wanted.take(i as int)[j]);
                } else {
                    assert(longer[j] == wanted[i as int]);
                }
            }
        }
        i += 1;
    }
    assert(wanted.take(i as int) =~= wanted);
    true
}

/// With more fonts, what could be shaped still can.
proof fn lemma_more_fonts(lines: Seq<(Seq<char>, Seq<u16>)>, held: Set<u16>, more: Set<u16>)
    requires
        can_shape(lines, held),
        held.subset_of(more),
    ensures
        can_shape(lines, more),
{
    assert forall|i: int| 0 <= i < lines.len() implies can_order((#[trigger] lines[i]).0)
        && forall|k: int|
        0 <= k < lines[i].1.len() ==> more.contains(#[trigger] lines[i].1[k]) by {
        assert forall|k: int| 0 <= k < lines[i].1.len() implies more.contains(
            #[trigger] lines[i].1[k],
        ) by {
            assert(held.contains(lines[i].1[k]));
        }
    }
}

/// The rectangles that a text is drawn with in this color, once there are
/// fonts for it; none where it cannot be shaped.
fn draw_glyphs(
    buffer: &mut Buffer,
    fonts: &mut FontSystem,
    cache: &mut SwashCache,
    color: Ink,
) -> (r: Option<Vec<GlyphRect>>)
    ensures
        match r {
            Some(glyphs) => drawn_in(lines_of(*old(buffer)), glyphs@, color) && can_shape(
                lines_of(*old(buffer)),
                held_weights(*final(fonts)),
            ),
            None => !can_shape(lines_of(*old(buffer)), held_weights(*final(fonts))),
        },
        lines_of(*final(buffer)) == lines_of(*old(buffer)),
        held_weights(*old(fonts)).subset_of(held_weights(*final(fonts))),
{
    if !find_fonts(buffer, fonts) {
        return None;
    }
    let ghost held = held_weights(*fonts);
    let glyphs = glyph_rects(buffer, fonts, cache, color);
    proof {
        lemma_more_fonts(lines_of(*old(buffer)), held, held_weights(*fonts));
    }
    Some(glyphs)
}

/// The image shows a text with these lines in this color, blended with its
/// origin at `(dx, dy)`.
pub open spec fn shows_text(
    before: Seq<u8>,
    after: Seq<u8>,
    w: int,
    h: int,
    dx: int,
    dy: int,
    lines: Seq<(Seq<char>, Seq<u16>)>,
    color: Ink,
    rule: AlphaRule,
) -> bool {
    exists|glyphs: Seq<GlyphRect>|
        drawn_in(lines, glyphs, color) && after == #[trigger] all_inked(
            before,
            w,
            h,
            glyphs,
            dx,
            dy,
            rule,
        )
}

/// The color of a text, given as blue, green, red, alpha.
pub fn text_ink(fg: &[u8; 4]) -> (r: Ink)
    ensures
        r == (Ink { r: fg[2], g: fg[1], b: fg[0], a: fg[3] }),
{
    Ink { r: fg[2], g: fg[1], b: fg[0], a: fg[3] }
}

/// The color of the text of a label, given as blue, green, red: it is opaque.
pub fn label_ink(fg: &[u8; 4]) -> (r: Ink)
    ensures
        r == (Ink { r: fg[2], g: fg[1], b: fg[0], a: 255 }),
{
    Ink { r: fg[2], g: fg[1], b: fg[0], a: 255 }
}

/// Draws a text onto an image, its origin at `(offset_x, offset_y)`. `fg` is
/// blue, green, red, alpha. Which pixels the text covers is up to the fonts;
/// [`blend_glyphs`] says what becomes of them. Where the text cannot be shaped,
/// the image stays as it is.
pub fn draw_text_onto(
    data: &mut [u8],
    buf_w: i32,
    buf_h: i32,
    offset_x: i32,
    offset_y: i32,
    fg: &[u8; 4],
    ct_buffer: &mut Buffer,
    font_system: &mut FontSystem,
    swash_cache: &mut SwashCache,
)
    ensures
        if can_shape(lines_of(*old(ct_buffer)), held_weights(*final(font_system))) {
            shows_text(
                old(data)@,
                final(data)@,
                buf_w as int,
                buf_h as int,
                offset_x as int,
                offset_y as int,
                lines_of(*old(ct_buffer)),
                (Ink { r: fg[2], g: fg[1], b: fg[0], a: fg[3] }),
                AlphaRule::Over,
            )
        } else {
            final(data)@ == old(data)@
        },
        lines_of(*final(ct_buffer)) == lines_of(*old(ct_buffer)),
        held_weights(*old(font_system)).subset_of(held_weights(*final(font_system))),
{
    let drawn = draw_glyphs(ct_buffer, font_system, swash_cache, text_ink(fg));
    if let Some(glyphs) = drawn {
        blend_glyphs(
            data,
            buf_w,
            buf_h,
            glyphs.as_slice(),
            offset_x,
            offset_y,
            AlphaRule::Over,
        );
    }
}

/// Draws a text onto an opaque label, its origin at `(pad, pad)`. `fg` is blue,
/// green, red; the text is opaque. Where the text cannot be shaped, the label
/// stays as it is.
pub fn draw_label_text(
    data: &mut [u8],
    buf_w: i32,
    buf_h: i32,
    pad: i32,
    fg: &[u8; 4],
    ct_buffer: &mut Buffer,
    font_system: &mut FontSystem,
    swash_cache: &mut SwashCache,
)
    ensures
        if can_shape(lines_of(*old(ct_buffer)), held_weights(*final(font_system))) {
            shows_text(
                old(data)@,
                final(data)@,
                buf_w as int,
                buf_h as int,
                pad as int,
                pad as int,
                lines_of(*old(ct_buffer)),
                (Ink { r: fg[2], g: fg[1], b: fg[0], a: 255 }),
                AlphaRule::Opaque,
            )
        } else {
            final(data)@ == old(data)@
        },
        lines_of(*final(ct_buffer)) == lines_of(*old(ct_buffer)),
        held_weights(*old(font_system)).subset_of(held_weights(*final(font_system))),
{
    let drawn = draw_glyphs(ct_buffer, font_system, swash_cache, label_ink(fg));
    if let Some(glyphs) = drawn {
        blend_glyphs(data, buf_w, buf_h, glyphs.as_slice(), pad, pad, AlphaRule::Opaque);
    }
}

/// Each rectangle as the pixel in its top left corner.
pub open spec fn dots(glyphs: Seq<GlyphRect>) -> Seq<GlyphRect> {
    glyphs.map_values(|g: GlyphRect| GlyphRect { w: 1, h: 1, ..g })
}

/// Makes each rectangle the pixel in its top left corner.
pub fn to_dots(glyphs: &[GlyphRect]) -> (r: Vec<GlyphRect>)
    ensures
        r@ == dots(glyphs@),
{
    let mut list: Vec<GlyphRect> = Vec::new();
    let mut i: usize = 0;
    assert(list@ =~= dots(glyphs@.take(0)));
    while i < glyphs.len()
        invariant
            i <= glyphs@.len(),
            list@ == dots(glyphs@.take(i as int)),
        decreases glyphs@.len() - i,
    {
        let g = glyphs[i];
        list.push(GlyphRect { x: g.x, y: g.y, w: 1, h: 1, ink: g.ink });
        assert(list@ =~= dots(glyphs@.take(i + 1)));
        i += 1;
    }
    assert(glyphs@.take(i as int) =~= glyphs@);
    list
}

/// The image shows a text with these lines in this color in single pixels,
/// opaque where it is, its origin at `(dx, dy)`.
pub open spec fn shows_dots(
    before: Seq<u8>,
    after: Seq<u8>,
    w: int,
    h: int,
    dx: int,
    dy: int,
    lines: Seq<(Seq<char>, Seq<u16>)>,
    color: Ink,
) -> bool {
    exists|glyphs: Seq<GlyphRect>|
        drawn_in(lines, glyphs, color) && after == #[trigger] all_inked(
            before,
            w,
            h,
            dots(glyphs),
            dx,
            dy,
            AlphaRule::Opaque,
        )
}

/// Draws a text onto an opaque image in single pixels, its origin at
/// `(dx, dy)`. Where the text cannot be shaped, the image stays as it is.
pub fn draw_dots(
    data: &mut [u8],
    buf_w: i32,
    buf_h: i32,
    dx: i32,
    dy: i32,
    color: Ink,
    ct_buffer: &mut Buffer,
    font_system: &mut FontSystem,
    swash_cache: &mut SwashCache,
)
    ensures
        if can_shape(lines_of(*old(ct_buffer)), held_weights(*final(font_system))) {
            shows_dots(
                old(data)@,
                final(data)@,
                buf_w as int,
                buf_h as int,
                dx as int,
                dy as int,
                lines_of(*old(ct_buffer)),
                color,
            )
        } else {
            final(data)@ == old(data)@
        },
        lines_of(*final(ct_buffer)) == lines_of(*old(ct_buffer)),
        held_weights(*old(font_system)).subset_of(held_weights(*final(font_system))),
{
    let drawn = draw_glyphs(ct_buffer, font_system, swash_cache, color);
    if let Some(glyphs) = drawn {
        let single = to_dots(glyphs.as_slice());
        assert(single@ == dots(glyphs@));
        blend_glyphs(data, buf_w, buf_h, single.as_slice(), dx, dy, AlphaRule::Opaque);
    }
}

/// A rectangle of ink moves each pixel it covers towards its color by its alpha:
/// without alpha nothing changes, and full alpha replaces the color. Pixels
/// beside it stay. The alpha grows towards opaque, or becomes so. `d` and `s` are
/// what a channel was and what the ink has for it.
pub proof fn pixels_move_towards_the_ink(
    data: &mut [u8],
    w: i32,
    h: i32,
    glyphs: &[GlyphRect],
    dx: i32,
    dy: i32,
    rule: AlphaRule,
    px: int,
    py: int,
    c: int,
    d: int,
    s: int,
)
    requires
        call_ensures(blend_glyphs, (data, w, h, glyphs, dx, dy, rule), ()),
        glyphs@.len() == 1,
        4 * (w * h) <= old(data)@.len(),
        0 <= px < w,
        0 <= py < h,
        0 <= c < 4,
        d == old(data)@[byte_at(w as int, px, py, c)],
        s == seq![glyphs@[0].ink.b, glyphs@[0].ink.g, glyphs@[0].ink.r, 255u8][c],
    ensures
        final(data)@.len() == old(data)@.len(),
        ({
            let g = glyphs@[0];
            let r = final(data)@[byte_at(w as int, px, py, c)];
            let covered = 0 <= px - (g.x + dx) < g.w && 0 <= py - (g.y + dy) < g.h && g.w
                <= i32::MAX && g.h <= i32::MAX;
            if !covered || g.ink.a == 0 {
                r == d
            } else if c == 3 && rule is Opaque {
                r == 255
            } else {
                &&& 255 * r <= d * (255 - g.ink.a) + s * g.ink.a < 255 * (r + 1)
                &&& g.ink.a == 255 ==> r == s
            }
        }),
{
    let g = glyphs@[0];
    let k = byte_at(w as int, px, py, c);
    lemma_byte_at(w as int, h as int, px, py, c);
    assert(glyphs@.drop_last() =~= seq![]);
    assert(glyphs@.last() == g);
    reveal_with_fuel(all_inked, 2);
    let p = py * w + px;
    assert(k / 4 == p);
    lemma_place(p, w as int, h as int, px, py);
    assert(4 * (k / 4) + 4 <= old(data)@.len());
    let a = g.ink.a as int;
    assert(0 <= d * (255 - a) + s * a <= 255 * 255) by (nonlinear_arith)
        requires
            0 <= d <= 255,
            0 <= s <= 255,
            0 <= a <= 255,
    ;
    if a == 255 {
        assert(d * (255 - a) + s * a == 255 * s) by (nonlinear_arith)
            requires
                a == 255,
        ;
    }
}

proof fn lemma_all_inked_len(
    before: Seq<u8>,
    w: int,
    h: int,
    glyphs: Seq<GlyphRect>,
    dx: int,
    dy: int,
    rule: AlphaRule,
)
    ensures
        all_inked(before, w, h, glyphs, dx, dy, rule).len() == before.len(),
    decreases glyphs.len(),
{
    if glyphs.len() > 0 {
        lemma_all_inked_len(before, w, h, glyphs.drop_last(), dx, dy, rule);
    }
}

/// The rectangles of a text are laid over each other in their order: blending a
/// list is blending all but the last, and then the last. No list changes nothing.
pub proof fn ink_is_laid_in_order(
    data: &mut [u8],
    first: &mut [u8],
    rest: &mut [u8],
    w: i32,
    h: i32,
    all: &[GlyphRect],
    front: &[GlyphRect],
    last: &[GlyphRect],
    dx: i32,
    dy: i32,
    rule: AlphaRule,
)
    requires
        call_ensures(blend_glyphs, (data, w, h, all, dx, dy, rule), ()),
        call_ensures(blend_glyphs, (first, w, h, front, dx, dy, rule), ()),
        call_ensures(blend_glyphs, (rest, w, h, last, dx, dy, rule), ()),
        old(first)@ == old(data)@,
        old(rest)@ == final(first)@,
        all@ == front@ + last@,
        last@.len() <= 1,
    ensures
        final(data)@ == final(rest)@,
        all@.len() == 0 ==> final(data)@ == old(data)@,
        final(data)@.len() == old(data)@.len(),
{
    lemma_all_inked_len(old(data)@, w as int, h as int, all@, dx as int, dy as int, rule);
    if last@.len() == 0 {
        assert(all@ =~= front@);
    } else {
        assert(all@.drop_last() =~= front@);
        assert(all@.last() == last@[0]);
        assert(last@.drop_last() =~= seq![]);
        reveal_with_fuel(all_inked, 2);
    }
}

/// A line has one direction where it is a single paragraph or holds nothing that
/// is written from right to left: adding a character to a line can only take
/// that away, and one that neither ends a paragraph nor is written from right to
/// left takes nothing.
pub proof fn directions_are_lost_only(
    line: &[char],
    longer: &[char],
    r: bool,
    s: bool,
    c: char,
)
    requires
        call_ensures(has_one_direction, (line,), r),
        call_ensures(has_one_direction, (longer,), s),
        longer@ == line@.push(c),
    ensures
        line@.len() == 0 ==> r && s,
        s ==> r,
        (c as u32) < 0x590 && c != '\u{a}' && c != '\u{d}' && c != '\u{85}' && !('\u{1c}' <= c
            <= '\u{1e}') ==> s == r,
        r && !s ==> (exists|i: int| 0 <= i < longer@.len() && ends_paragraph(#[trigger] longer@[i]))
            && (exists|i: int| 0 <= i < longer@.len() && right_to_left(#[trigger] longer@[i])),
{
    assert(forall|i: int| 0 <= i < line@.len() ==> longer@[i] == line@[i]);
    assert(longer@[line@.len() as int] == c);
    if s {
        if forall|i: int| 0 <= i < longer@.len() ==> !ends_paragraph(#[trigger] longer@[i]) {
            assert forall|i: int| 0 <= i < line@.len() implies !ends_paragraph(
                #[trigger] line@[i],
            ) by {
                assert(!ends_paragraph(longer@[i]));
            }
        } else {
            assert forall|i: int| 0 <= i < line@.len() implies !right_to_left(
                #[trigger] line@[i],
            ) by {
                assert(!right_to_left(longer@[i]));
            }
        }
    }
    if r && (c as u32) < 0x590 && c != '\u{a}' && c != '\u{d}' && c != '\u{85}' && !('\u{1c}' <= c
        <= '\u{1e}') {
        assert(!ends_paragraph(c) && !right_to_left(c));
    }
}

/// Every control that opens an embedding, an override or an isolate opens a level,
/// and no other character does.
pub proof fn controls_open_levels(
    line: &[char],
    longer: &[char],
    n: usize,
    m: usize,
    c: char,
)
    requires
        call_ensures(count_levels, (line,), n),
        call_ensures(count_levels, (longer,), m),
        longer@ == line@.push(c),
    ensures
        line@.len() == 0 ==> n == 0,
        c == '\u{202a}' || c == '\u{202b}' || c == '\u{202d}' || c == '\u{202e}' || c == '\u{2066}'
            || c == '\u{2067}' || c == '\u{2068}' ==> m == n + 1,
        !(c == '\u{202a}' || c == '\u{202b}' || c == '\u{202d}' || c == '\u{202e}' || c
            == '\u{2066}' || c == '\u{2067}' || c == '\u{2068}') ==> m == n,
{
    assert(longer@.drop_last() =~= line@);
}

/// A text's ink has the color it is given as blue, green, red; that of a label is
/// opaque.
pub proof fn inks_take_their_color(fg: &[u8; 4], text: Ink, label: Ink)
    requires
        call_ensures(text_ink, (fg,), text),
        call_ensures(label_ink, (fg,), label),
    ensures
        text.b == fg@[0] && text.g == fg@[1] && text.r == fg@[2] && text.a == fg@[3],
        label.b == fg@[0] && label.g == fg@[1] && label.r == fg@[2] && label.a == 255,
{
}

/// Each rectangle becomes the pixel in its top left corner, in its color.
pub proof fn dots_stand_in_the_corner(glyphs: &[GlyphRect], r: Vec<GlyphRect>, i: int)
    requires
        call_ensures(to_dots, (glyphs,), r),
        0 <= i < glyphs@.len(),
    ensures
        r@.len() == glyphs@.len(),
        r@[i].x == glyphs@[i].x && r@[i].y == glyphs@[i].y,
        r@[i].w == 1 && r@[i].h == 1,
        r@[i].ink == glyphs@[i].ink,
{
}

/// A text that can be shaped is drawn in its color with its origin at the offset,
/// and the image's alpha grows under it; one that cannot leaves the image. The
/// text itself stays, and no font that was held is lost.
pub proof fn texts_are_drawn_at_their_offset(
    data: &mut [u8],
    w: i32,
    h: i32,
    x: i32,
    y: i32,
    fg: &[u8; 4],
    buffer: &mut Buffer,
    fonts: &mut FontSystem,
    cache: &mut SwashCache,
)
    requires
        call_ensures(draw_text_onto, (data, w, h, x, y, fg, buffer, fonts, cache), ()),
    ensures
        can_shape(lines_of(*old(buffer)), held_weights(*final(fonts))) ==> exists|glyphs: Seq<
            GlyphRect,
        >|
            drawn_in(
                lines_of(*old(buffer)),
                glyphs,
                (Ink { r: fg@[2], g: fg@[1], b: fg@[0], a: fg@[3] }),
            ) && final(data)@ == #[trigger] all_inked(
                old(data)@,
                w as int,
                h as int,
                glyphs,
                x as int,
                y as int,
                AlphaRule::Over,
            ),
        !can_shape(lines_of(*old(buffer)), held_weights(*final(fonts))) ==> final(data)@ == old(
            data,
        )@,
        lines_of(*final(buffer)) == lines_of(*old(buffer)),
        forall|weight: u16| #[trigger]
            held_weights(*old(fonts)).contains(weight) ==> held_weights(*final(fonts)).contains(
                weight,
            ),
{
}

/// The text of a label is drawn with the same room at the left and at the top, and
/// the image is opaque under it.
pub proof fn labels_are_drawn_with_a_border(
    data: &mut [u8],
    w: i32,
    h: i32,
    pad: i32,
    fg: &[u8; 4],
    buffer: &mut Buffer,
    fonts: &mut FontSystem,
    cache: &mut SwashCache,
)
    requires
        call_ensures(draw_label_text, (data, w, h, pad, fg, buffer, fonts, cache), ()),
    ensures
        can_shape(lines_of(*old(buffer)), held_weights(*final(fonts))) ==> exists|glyphs: Seq<
            GlyphRect,
        >|
            drawn_in(
                lines_of(*old(buffer)),
                glyphs,
                (Ink { r: fg@[2], g: fg@[1], b: fg@[0], a: 255 }),
            ) && final(data)@ == #[trigger] all_inked(
                old(data)@,
                w as int,
                h as int,
                glyphs,
                pad as int,
                pad as int,
                AlphaRule::Opaque,
            ),
        !can_shape(lines_of(*old(buffer)), held_weights(*final(fonts))) ==> final(data)@ == old(
            data,
        )@,
        lines_of(*final(buffer)) == lines_of(*old(buffer)),
{
}

/// A text in single pixels is the text with each rectangle made a pixel, at its
/// origin, opaque.
pub proof fn dots_are_drawn_at_their_origin(
    data: &mut [u8],
    w: i32,
    h: i32,
    dx: i32,
    dy: i32,
    color: Ink,
    buffer: &mut Buffer,
    fonts: &mut FontSystem,
    cache: &mut SwashCache,
)
    requires
        call_ensures(draw_dots, (data, w, h, dx, dy, color, buffer, fonts, cache), ()),
    ensures
        can_shape(lines_of(*old(buffer)), held_weights(*final(fonts))) ==> exists|
            glyphs: Seq<GlyphRect>,
            single: Seq<GlyphRect>,
        |
            {
                &&& #[trigger] drawn_in(lines_of(*old(buffer)), glyphs, color)
                &&& single.len() == glyphs.len()
                &&& forall|i: int|
                    0 <= i < glyphs.len() ==> (#[trigger] single[i]).x == glyphs[i].x
                        && single[i].y == glyphs[i].y && single[i].w == 1 && single[i].h == 1
                        && single[i].ink == glyphs[i].ink
                &&& final(data)@ == #[trigger] all_inked(
                    old(data)@,
                    w as int,
                    h as int,
                    single,
                    dx as int,
                    dy as int,
                    AlphaRule::Opaque,
                )
            },
        !can_shape(lines_of(*old(buffer)), held_weights(*final(fonts))) ==> final(data)@ == old(
            data,
        )@,
        lines_of(*final(buffer)) == lines_of(*old(buffer)),
{
    if can_shape(lines_of(*old(buffer)), held_weights(*final(fonts))) {
        let glyphs = choose|glyphs: Seq<GlyphRect>|
            drawn_in(lines_of(*old(buffer)), glyphs, color) && final(data)@ == #[trigger] all_inked(
                old(data)@,
                w as int,
                h as int,
                dots(glyphs),
                dx as int,
                dy as int,
                AlphaRule::Opaque,
            );
        let single = dots(glyphs);
        assert(drawn_in(lines_of(*old(buffer)), glyphs, color));
        assert(final(data)@ == all_inked(
            old(data)@,
            w as int,
            h as int,
            single,
            dx as int,
            dy as int,
            AlphaRule::Opaque,
        ));
    }
}

/// Fonts are found for a text only where every line of it can be put in order,
/// and then the fonts held have all its weights.
pub proof fn fonts_are_found_for_every_line(
    buffer: &Buffer,
    fonts: &mut FontSystem,
    r: bool,
    i: int,
    k: int,
    line: &[char],
    one: bool,
    levels: usize,
)
    requires
        call_ensures(find_fonts, (buffer, fonts), r),
        0 <= i < lines_of(*buffer).len(),
        line@ == lines_of(*buffer)[i].0,
        call_ensures(has_one_direction, (line,), one),
        call_ensures(count_levels, (line,), levels),
        0 <= k < lines_of(*buffer)[i].1.len(),
    ensures
        !one || levels > 61 ==> !r,
        r ==> held_weights(*final(fonts)).contains(lines_of(*buffer)[i].1[k]),
        forall|weight: u16| #[trigger]
            held_weights(*old(fonts)).contains(weight) ==> held_weights(*final(fonts)).contains(
                weight,
            ),
{
    let l = lines_of(*buffer)[i];
    if r {
        assert(can_order(l.0));
    }
}

} // verus!
