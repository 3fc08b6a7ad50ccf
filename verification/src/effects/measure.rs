//! The measure overlay: cross hair, coordinates at the cursor, and rulers along
//! the top and the left edge.

use crate::effects::bitmap_font::{
    draw_text, glyph, label_width, text_area, text_lit, width_of, GLYPH_H,
};
use crate::effects::pixels::{
    byte_at, fill_rect, holds_image, lemma_byte_at, lemma_painted_same, lemma_painted_union,
    new_image, painted, rectangle, two_colored,
};
use crate::geometry::{max, Point, Rect, Size};
use crate::text::{
    decimal, lemma_decimal_length, lemma_decimal_short, push_decimal, push_signed, signed_decimal,
};
use vstd::prelude::*;

verus! {

pub const RULER_SIZE: i32 = 22;

/// Between the cursor and the label with its coordinates.
pub const CURSOR_LABEL_OFFSET: i32 = 8;

/// Around the text of a label.
pub const LABEL_PAD: i32 = 3;

/// Between a tick mark and its number.
pub const LABEL_GAP: i32 = 2;

/// The background, near black: blue, green, red, alpha.
pub open spec fn background() -> Seq<u8> {
    seq![35u8, 25u8, 25u8, 220u8]
}

/// Text, ticks and borders, pink.
pub open spec fn foreground() -> Seq<u8> {
    seq![180u8, 100u8, 255u8, 255u8]
}

fn bg_color() -> (r: [u8; 4])
    ensures
        r@ == background(),
{
    let color: [u8; 4] = [35, 25, 25, 220];
    assert(color@ =~= background());
    color
}

fn fg_color() -> (r: [u8; 4])
    ensures
        r@ == foreground(),
{
    let color: [u8; 4] = [180, 100, 255, 255];
    assert(color@ =~= foreground());
    color
}

/// The length of the tick mark at a position: long at hundreds, middling at
/// fifties.
pub open spec fn tick(pos: int) -> int {
    if pos % 100 == 0 {
        10
    } else if pos % 50 == 0 {
        6
    } else {
        3
    }
}

/// The length of the tick mark at a position.
pub fn tick_length(pos: i32) -> (r: i32)
    ensures
        r == tick(pos as int),
{
    if pos % 100 == 0 {
        10
    } else if pos % 50 == 0 {
        6
    } else {
        3
    }
}

#[derive(Debug)]
pub struct Image {
    pub size: Size,
    pub data: Vec<u8>,
}

impl Image {
    /// A picture of this size in the two colors of the overlay.
    pub open spec fn is_picture(&self, w: int, h: int, area: spec_fn(int, int) -> bool) -> bool {
        &&& self.size.w == w
        &&& self.size.h == h
        &&& two_colored(self.data@, w, h, area, foreground(), background())
    }
}

// ---------------------------------------------------------------------------
// The cursor's label
// ---------------------------------------------------------------------------

/// The text at the cursor: its coordinates.
pub open spec fn coordinates(x: int, y: int) -> Seq<char> {
    signed_decimal(x) + seq![',', ' '] + signed_decimal(y)
}

/// The size of the label with the cursor's coordinates.
pub open spec fn label_size(x: int, y: int) -> (int, int) {
    (6 + width_of(coordinates(x, y).len() as int), 13)
}

/// The label shows the coordinates.
pub open spec fn is_label(img: Image, x: int, y: int) -> bool {
    img.is_picture(label_size(x, y).0, label_size(x, y).1, text_area(coordinates(x, y), 3, 3))
}

proof fn lemma_coordinates_short(x: i32, y: i32)
    ensures
        4 <= coordinates(x as int, y as int).len() <= 44,
{
    let n = if x < 0 {
        -x
    } else {
        x as int
    };
    let m = if y < 0 {
        -y
    } else {
        y as int
    };
    lemma_decimal_short(n as nat);
    lemma_decimal_short(m as nat);
}

/// The label with the cursor's coordinates.
pub fn render_label(x: i32, y: i32) -> (r: Image)
    ensures
        is_label(r, x as int, y as int),
{
    let mut text = String::new();
    push_signed(&mut text, x);
    text.push(',');
    text.push(' ');
    push_signed(&mut text, y);
    assert(text@ =~= coordinates(x as int, y as int));
    proof {
        lemma_coordinates_short(x, y);
    }
    let size = Size { w: LABEL_PAD * 2 + label_width(text.as_str()), h: LABEL_PAD * 2 + GLYPH_H };
    assert(4 * (size.w * size.h) <= 20000) by (nonlinear_arith)
        requires
            0 <= size.w <= 300,
            size.h == 13,
    ;
    let mut data = new_image(size.w, size.h, &bg_color());
    draw_text(
        data.as_mut_slice(),
        size,
        Point { x: LABEL_PAD, y: LABEL_PAD },
        text.as_str(),
        &fg_color(),
    );
    Image { size, data }
}

// ---------------------------------------------------------------------------
// Rulers
// ---------------------------------------------------------------------------

/// The number at `m` on the top ruler covers the pixel.
pub open spec fn top_number(w: int, m: int, x: int, y: int) -> bool {
    &&& 0 < m < w
    &&& m % 100 == 0
    &&& m + 2 + width_of(decimal(m as nat).len() as int) < w
    &&& text_lit(decimal(m as nat), x - (m + 2), y - 2)
}

/// What a top ruler of width `w` shows: its lower edge, a tick mark every ten
/// pixels that grows upward from it, and a number at every hundred, unless it
/// does not fit.
pub open spec fn top_ruler(w: int) -> spec_fn(int, int) -> bool {
    |x: int, y: int|
        y == 21 || (x % 10 == 0 && 21 - tick(x) <= y < 21) || exists|m: int| #[trigger]
            top_number(w, m, x, y)
}

/// The number at `m` on the left ruler covers the pixel.
pub open spec fn left_number(h: int, m: int, x: int, y: int) -> bool {
    &&& 0 < m < h
    &&& m % 100 == 0
    &&& 2 + width_of(decimal(m as nat).len() as int) < 22
    &&& m + 2 + 7 < h
    &&& text_lit(decimal(m as nat), x - 2, y - (m + 2))
}

/// What a left ruler of height `h` shows: its right edge, a tick mark every ten
/// pixels that grows leftward from it, and a number at every hundred, unless
/// it does not fit.
pub open spec fn left_ruler(h: int) -> spec_fn(int, int) -> bool {
    |x: int, y: int|
        x == 21 || (y % 10 == 0 && 21 - tick(y) <= x < 21) || exists|m: int| #[trigger]
            left_number(h, m, x, y)
}

/// The part of the top ruler that the marks before position `p` make up.
spec fn top_until(w: int, p: int) -> spec_fn(int, int) -> bool {
    |x: int, y: int|
        y == 21 || (x % 10 == 0 && x < p && 21 - tick(x) <= y < 21) || exists|m: int|
            m < p && #[trigger] top_number(w, m, x, y)
}

spec fn left_until(h: int, p: int) -> spec_fn(int, int) -> bool {
    |x: int, y: int|
        x == 21 || (y % 10 == 0 && y < p && 21 - tick(y) <= x < 21) || exists|m: int|
            m < p && #[trigger] left_number(h, m, x, y)
}

/// The mark at position `p` of the top ruler, with its number.
spec fn top_mark(w: int, p: int) -> spec_fn(int, int) -> bool {
    |x: int, y: int| (x == p && 21 - tick(p) <= y < 21) || top_number(w, p, x, y)
}

spec fn left_mark(h: int, p: int) -> spec_fn(int, int) -> bool {
    |x: int, y: int| (y == p && 21 - tick(p) <= x < 21) || left_number(h, p, x, y)
}

/// There are numbers at tens only.
proof fn lemma_top_step(w: int, p: int, x: int, y: int)
    requires
        p % 10 == 0,
    ensures
        top_until(w, p + 10)(x, y) == (top_until(w, p)(x, y) || top_mark(w, p)(x, y)),
{
    assert forall|m: int| p < m < p + 10 implies !top_number(w, m, x, y) by {
        assert(m % 100 == 0 ==> m % 10 == 0);
    }
    assert(x % 10 == 0 && p <= x < p + 10 ==> x == p);
    if top_number(w, p, x, y) {
        assert(top_until(w, p + 10)(x, y));
    }
}

proof fn lemma_left_step(h: int, p: int, x: int, y: int)
    requires
        p % 10 == 0,
    ensures
        left_until(h, p + 10)(x, y) == (left_until(h, p)(x, y) || left_mark(h, p)(x, y)),
{
    assert forall|m: int| p < m < p + 10 implies !left_number(h, m, x, y) by {
        assert(m % 100 == 0 ==> m % 10 == 0);
    }
    assert(y % 10 == 0 && p <= y < p + 10 ==> y == p);
    if left_number(h, p, x, y) {
        assert(left_until(h, p + 10)(x, y));
    }
}

fn draw_top_mark(data: &mut [u8], size: Size, x: i32, color: &[u8; 4])
    requires
        size.h == 22,
        0 <= x < size.w,
        88 * size.w <= i32::MAX,
        holds_image(old(data)@, size.w as int, 22),
    ensures
        painted(
            old(data)@,
            final(data)@,
            size.w as int,
            22,
            top_mark(size.w as int, x as int),
            color@,
        ),
{
    let ghost w = size.w as int;
    let ghost before = data@;
    let ghost mark = top_mark(w, x as int);
    let len: i32 = tick_length(x);
    fill_rect(data, size.w, size.h, x, size.h - 1 - len, 1, len, *color);
    let ghost bar = rectangle(x as int, 21 - len, 1, len as int);
    if x % 100 == 0 && x > 0 {
        let mut text = String::new();
        push_decimal(&mut text, x as u64);
        assert(text@ =~= decimal(x as nat));
        proof {
            lemma_decimal_short(x as nat);
        }
        let at = Point { x: x + LABEL_GAP, y: LABEL_GAP };
        if at.x + label_width(text.as_str()) < size.w {
            let ghost marked = data@;
            draw_text(data, size, at, text.as_str(), color);
            proof {
                lemma_painted_union(
                    before,
                    marked,
                    data@,
                    w,
                    22,
                    bar,
                    text_area(decimal(x as nat), x + 2, 2),
                    mark,
                    color@,
                );
            }
            return;
        }
    }
    proof {
        lemma_painted_same(before, data@, w, 22, bar, mark, color@);
    }
}

fn draw_left_mark(data: &mut [u8], size: Size, y: i32, color: &[u8; 4])
    requires
        size.w == 22,
        0 <= y < size.h,
        88 * size.h <= i32::MAX,
        holds_image(old(data)@, 22, size.h as int),
    ensures
        painted(
            old(data)@,
            final(data)@,
            22,
            size.h as int,
            left_mark(size.h as int, y as int),
            color@,
        ),
{
    let ghost h = size.h as int;
    let ghost before = data@;
    let ghost mark = left_mark(h, y as int);
    let len: i32 = tick_length(y);
    fill_rect(data, size.w, size.h, size.w - 1 - len, y, len, 1, *color);
    let ghost bar = rectangle(21 - len, y as int, len as int, 1);
    if y % 100 == 0 && y > 0 {
        let mut text = String::new();
        push_decimal(&mut text, y as u64);
        assert(text@ =~= decimal(y as nat));
        proof {
            lemma_decimal_short(y as nat);
        }
        let at = Point { x: LABEL_GAP, y: y + LABEL_GAP };
        if at.x + label_width(text.as_str()) < size.w && at.y + GLYPH_H < size.h {
            let ghost marked = data@;
            draw_text(data, size, at, text.as_str(), color);
            proof {
                lemma_painted_union(
                    before,
                    marked,
                    data@,
                    22,
                    h,
                    bar,
                    text_area(decimal(y as nat), 2, y + 2),
                    mark,
                    color@,
                );
            }
            return;
        }
    }
    proof {
        lemma_painted_same(before, data@, 22, h, bar, mark, color@);
    }
}

/// The top ruler for a canvas of this width.
pub fn render_top_ruler(width: i32) -> (r: Image)
    requires
        88 * width <= i32::MAX,
    ensures
        r.is_picture(max(width as int, 1), 22, top_ruler(max(width as int, 1))),
{
    let size = Size {
        w: if width >= 1 {
            width
        } else {
            1
        },
        h: RULER_SIZE,
    };
    let ghost w = size.w as int;
    assert(4 * (size.w * size.h) == 88 * size.w) by (nonlinear_arith)
        requires
            size.h == 22,
    ;
    let mut data = new_image(size.w, size.h, &bg_color());
    let ghost plain = data@;
    let color = fg_color();
    fill_rect(data.as_mut_slice(), size.w, size.h, 0, size.h - 1, size.w, 1, color);
    proof {
        lemma_painted_same(
            plain,
            data@,
            w,
            22,
            rectangle(0, 21, w, 1),
            top_until(w, 0),
            color@,
        );
    }
    let mut x: i32 = 0;
    while x < size.w
        invariant
            0 <= x <= size.w + 9,
            x % 10 == 0,
            88 * size.w <= i32::MAX,
            w == size.w,
            size.h == 22,
            holds_image(data@, w, 22),
            painted(plain, data@, w, 22, top_until(w, x as int), color@),
        decreases size.w + 10 - x,
    {
        let ghost here = data@;
        draw_top_mark(data.as_mut_slice(), size, x, &color);
        proof {
            assert forall|px: int, py: int|
                0 <= px < w && 0 <= py < 22 implies #[trigger] top_until(w, x + 10)(px, py) == (
            top_until(w, x as int)(px, py) || top_mark(w, x as int)(px, py)) by {
                lemma_top_step(w, x as int, px, py);
            }
            lemma_painted_union(
                plain,
                here,
                data@,
                w,
                22,
                top_until(w, x as int),
                top_mark(w, x as int),
                top_until(w, x + 10),
                color@,
            );
        }
        x += 10;
    }
    proof {
        let all = top_ruler(w);
        assert forall|px: int, py: int| 0 <= px < w && 0 <= py < 22 implies #[trigger] all(px, py)
            == top_until(w, x as int)(px, py) by {
            assert forall|m: int| #[trigger] top_number(w, m, px, py) implies m < x by {}
        }
        lemma_painted_same(plain, data@, w, 22, top_until(w, x as int), all, color@);
    }
    Image { size, data }
}

/// The left ruler for a canvas of this height.
pub fn render_left_ruler(height: i32) -> (r: Image)
    requires
        88 * height <= i32::MAX,
    ensures
        r.is_picture(22, max(height as int, 1), left_ruler(max(height as int, 1))),
{
    let size = Size {
        w: RULER_SIZE,
        h: if height >= 1 {
            height
        } else {
            1
        },
    };
    let ghost h = size.h as int;
    assert(4 * (size.w * size.h) == 88 * size.h) by (nonlinear_arith)
        requires
            size.w == 22,
    ;
    let mut data = new_image(size.w, size.h, &bg_color());
    let ghost plain = data@;
    let color = fg_color();
    fill_rect(data.as_mut_slice(), size.w, size.h, size.w - 1, 0, 1, size.h, color);
    proof {
        lemma_painted_same(
            plain,
            data@,
            22,
            h,
            rectangle(21, 0, 1, h),
            left_until(h, 0),
            color@,
        );
    }
    let mut y: i32 = 0;
    while y < size.h
        invariant
            0 <= y <= size.h + 9,
            y % 10 == 0,
            88 * size.h <= i32::MAX,
            h == size.h,
            size.w == 22,
            holds_image(data@, 22, h),
            painted(plain, data@, 22, h, left_until(h, y as int), color@),
        decreases size.h + 10 - y,
    {
        let ghost here = data@;
        draw_left_mark(data.as_mut_slice(), size, y, &color);
        proof {
            assert forall|px: int, py: int|
                0 <= px < 22 && 0 <= py < h implies #[trigger] left_until(h, y + 10)(px, py) == (
            left_until(h, y as int)(px, py) || left_mark(h, y as int)(px, py)) by {
                lemma_left_step(h, y as int, px, py);
            }
            lemma_painted_union(
                plain,
                here,
                data@,
                22,
                h,
                left_until(h, y as int),
                left_mark(h, y as int),
                left_until(h, y + 10),
                color@,
            );
        }
        y += 10;
    }
    proof {
        let all = left_ruler(h);
        assert forall|px: int, py: int| 0 <= px < 22 && 0 <= py < h implies #[trigger] all(px, py)
            == left_until(h, y as int)(px, py) by {
            assert forall|m: int| #[trigger] left_number(h, m, px, py) implies m < y by {}
        }
        lemma_painted_same(plain, data@, 22, h, left_until(h, y as int), all, color@);
    }
    Image { size, data }
}

// ---------------------------------------------------------------------------
// The overlay
// ---------------------------------------------------------------------------

/// Something that the overlay shows, at a place of the screen.
#[derive(Debug, Clone, Copy, PartialEq, Eq, Structural)]
pub enum MeasureElement {
    /// The label with the cursor's coordinates, in logical coordinates.
    CursorLabel { at: Point },
    /// A line of the cross hair, in physical coordinates.
    Line(Rect),
    /// The top ruler, at the canvas's origin.
    TopRuler,
    /// The left ruler, at the canvas's origin.
    LeftRuler,
}

#[derive(Debug)]
pub struct MeasureOverlay {
    pub enabled: bool,
    /// The cursor's place on the canvas that the label shows.
    pub last_pos: Option<Point>,
    /// The canvas size that the rulers are drawn for.
    pub last_output: Option<Size>,
    pub label: Image,
    pub top_ruler: Image,
    pub left_ruler: Image,
    /// How often the label has changed.
    pub lines_commit: u64,
}

/// Where the label goes: below the cursor and to its right, or on the other
/// side where it does not fit on the canvas there.
pub open spec fn label_place(cursor: int, label: int, canvas_end: int) -> int {
    if cursor + 8 + label <= canvas_end {
        cursor + 8
    } else {
        cursor - 8 - label
    }
}

/// The cursor and the canvas are not so far out that the coordinates shown, or
/// the place of the label, leave the range.
pub open spec fn measurable(cursor: Point, canvas: Rect) -> bool {
    let label = label_size(cursor.x - canvas.x, cursor.y - canvas.y);
    &&& i32::MIN <= cursor.x - canvas.x <= i32::MAX
    &&& i32::MIN <= cursor.y - canvas.y <= i32::MAX
    &&& i32::MIN <= label_place(cursor.x as int, label.0, canvas.x + canvas.w) <= i32::MAX
    &&& i32::MIN <= label_place(cursor.y as int, label.1, canvas.y + canvas.h) <= i32::MAX
    &&& 88 * canvas.w <= i32::MAX
    &&& 88 * canvas.h <= i32::MAX
}

/// What the overlay shows, from the top.
pub open spec fn measure_elements(
    cursor: Point,
    canvas: Rect,
    cursor_phys: Point,
    canvas_phys: Rect,
) -> Seq<MeasureElement> {
    let label = label_size(cursor.x - canvas.x, cursor.y - canvas.y);
    seq![
        MeasureElement::CursorLabel {
            at: Point {
                x: label_place(cursor.x as int, label.0, canvas.x + canvas.w) as i32,
                y: label_place(cursor.y as int, label.1, canvas.y + canvas.h) as i32,
            },
        },
        MeasureElement::Line(Rect { x: canvas_phys.x, y: cursor_phys.y, w: canvas_phys.w, h: 1 }),
        MeasureElement::Line(Rect { x: cursor_phys.x, y: canvas_phys.y, w: 1, h: canvas_phys.h }),
        MeasureElement::TopRuler,
        MeasureElement::LeftRuler,
    ]
}

fn place_label(cursor: i32, label: i32, canvas_start: i32, canvas_len: i32) -> (r: i32)
    requires
        0 <= label,
        i32::MIN <= label_place(cursor as int, label as int, canvas_start + canvas_len) <= i32::MAX,
    ensures
        r == label_place(cursor as int, label as int, canvas_start + canvas_len),
{
    let end: i64 = canvas_start as i64 + canvas_len as i64;
    if cursor as i64 + CURSOR_LABEL_OFFSET as i64 + label as i64 <= end {
        cursor + CURSOR_LABEL_OFFSET
    } else {
        cursor - CURSOR_LABEL_OFFSET - label
    }
}

impl MeasureOverlay {
    pub fn new() -> (r: MeasureOverlay)
        ensures
            !r.enabled,
            r.last_pos is None,
            r.last_output is None,
            r.lines_commit == 0,
            r.label.size == (Size { w: 0, h: 0 }) && r.label.data@.len() == 0,
            r.top_ruler.size == (Size { w: 0, h: 0 }) && r.top_ruler.data@.len() == 0,
            r.left_ruler.size == (Size { w: 0, h: 0 }) && r.left_ruler.data@.len() == 0,
            r.wf(),
    {
        MeasureOverlay {
            enabled: false,
            last_pos: None,
            last_output: None,
            label: Image { size: Size { w: 0, h: 0 }, data: Vec::new() },
            top_ruler: Image { size: Size { w: 0, h: 0 }, data: Vec::new() },
            left_ruler: Image { size: Size { w: 0, h: 0 }, data: Vec::new() },
            lines_commit: 0,
        }
    }

    pub fn set_enabled(&mut self, enabled: bool)
        ensures
            *final(self) == (MeasureOverlay { enabled, ..*old(self) }),
    {
        self.enabled = enabled;
    }

    /// The images show what they were last drawn for.
    pub open spec fn wf(&self) -> bool {
        &&& self.last_pos matches Some(p) ==> is_label(self.label, p.x as int, p.y as int)
        &&& self.last_output matches Some(size) ==> {
            &&& self.top_ruler.is_picture(
                max(size.w as int, 1),
                22,
                top_ruler(max(size.w as int, 1)),
            )
            &&& self.left_ruler.is_picture(
                22,
                max(size.h as int, 1),
                left_ruler(max(size.h as int, 1)),
            )
        }
    }

    /// What to show for this cursor and canvas, from the top; nothing while
    /// there is no cursor or the overlay is off. The rulers are drawn anew
    /// when the canvas changes its size, the label when the cursor moves on
    /// the canvas.
    pub fn build_elements(
        &mut self,
        cursor: Option<Point>,
        canvas: Rect,
        cursor_phys: Point,
        canvas_phys: Rect,
    ) -> (r: Vec<MeasureElement>)
        requires
            old(self).wf(),
            old(self).enabled ==> (cursor matches Some(c) ==> measurable(c, canvas)),
        ensures
            final(self).wf(),
            final(self).enabled == old(self).enabled,
            match cursor {
                Some(c) if old(self).enabled => {
                    let pos = Point {
                        x: (c.x - canvas.x) as i32,
                        y: (c.y - canvas.y) as i32,
                    };
                    &&& r@ == measure_elements(c, canvas, cursor_phys, canvas_phys)
                    &&& final(self).last_pos == Some(pos)
                    &&& final(self).last_output == Some(Size { w: canvas.w, h: canvas.h })
                    &&& final(self).lines_commit == if old(self).last_pos == Some(pos) {
                        old(self).lines_commit
                    } else {
                        old(self).lines_commit.wrapping_add(1)
                    }
                },
                _ => r@ == Seq::<MeasureElement>::empty() && *final(self) == *old(self),
            },
    {
        let mut elements: Vec<MeasureElement> = Vec::new();
        let cursor = match cursor {
            Some(c) => c,
            None => return elements,
        };
        if !self.enabled {
            return elements;
        }
        let size = Size { w: canvas.w, h: canvas.h };
        let same_size = match self.last_output {
            Some(s) => s == size,
            None => false,
        };
        if !same_size {
            self.last_output = Some(size);
            self.top_ruler = render_top_ruler(size.w);
            self.left_ruler = render_left_ruler(size.h);
        }
        let pos = Point { x: cursor.x - canvas.x, y: cursor.y - canvas.y };
        let same_pos = match self.last_pos {
            Some(p) => p == pos,
            None => false,
        };
        if !same_pos {
            self.last_pos = Some(pos);
            self.lines_commit = self.lines_commit.wrapping_add(1);
            self.label = render_label(pos.x, pos.y);
        }
        proof {
            lemma_coordinates_short(pos.x, pos.y);
        }
        let label = self.label.size;
        let at = Point {
            x: place_label(cursor.x, label.w, canvas.x, canvas.w),
            y: place_label(cursor.y, label.h, canvas.y, canvas.h),
        };
        elements.push(MeasureElement::CursorLabel { at });
        elements.push(
            MeasureElement::Line(
                Rect { x: canvas_phys.x, y: cursor_phys.y, w: canvas_phys.w, h: 1 },
            ),
        );
        elements.push(
            MeasureElement::Line(
                Rect { x: cursor_phys.x, y: canvas_phys.y, w: 1, h: canvas_phys.h },
            ),
        );
        elements.push(MeasureElement::TopRuler);
        elements.push(MeasureElement::LeftRuler);
        assert(elements@ =~= measure_elements(cursor, canvas, cursor_phys, canvas_phys));
        elements
    }
}

/// A label on its usual side lies on the canvas as far as its end; on the other
/// side it ends short of the cursor.
pub proof fn labels_keep_off_the_edge(cursor: int, label: int, canvas_end: int)
    requires
        0 <= label,
    ensures
        ({
            let at = label_place(cursor, label, canvas_end);
            (at > cursor && at + label <= canvas_end) || at + label == cursor - 8
        }),
{
}

/// Tick marks are long at the hundreds, half as long and a little more at the
/// fifties between them, and short elsewhere; they repeat every hundred pixels.
pub proof fn ticks_repeat(pos: i32, next: i32, r: i32, s: i32)
    requires
        call_ensures(tick_length, (pos,), r),
        call_ensures(tick_length, (next,), s),
        next - pos == 100,
    ensures
        r == s,
        (r == 10) == (pos % 100 == 0),
        (r == 6) == (pos % 100 == 50),
        (r == 3) == (pos % 50 != 0),
{
}

/// The cursor's label is its coordinates drawn onto a plain label, three pixels
/// from each edge. `a` and `b` are the coordinates written out.
pub proof fn labels_show_the_coordinates(
    x: i32,
    y: i32,
    r: Image,
    a: &mut String,
    b: &mut String,
    text: &str,
    w: i32,
    bg: &[u8; 4],
    fg: &[u8; 4],
    plain: Vec<u8>,
    data: &mut [u8],
)
    requires
        call_ensures(render_label, (x, y), r),
        old(a)@.len() == 0,
        old(b)@.len() == 0,
        call_ensures(push_signed, (a, x), ()),
        call_ensures(push_signed, (b, y), ()),
        text@ == final(a)@ + seq![',', ' '] + final(b)@,
        call_ensures(label_width, (text,), w),
        bg@ == seq![35u8, 25u8, 25u8, 220u8],
        fg@ == seq![180u8, 100u8, 255u8, 255u8],
        call_ensures(new_image, ((w + 6) as i32, 13i32, bg), plain),
        old(data)@ == plain@,
        call_ensures(
            draw_text,
            (data, Size { w: (w + 6) as i32, h: 13 }, Point { x: 3, y: 3 }, text, fg),
            (),
        ),
    ensures
        r.size == (Size { w: (w + 6) as i32, h: 13 }),
        r.data@ == final(data)@,
{
    assert(final(a)@ =~= signed_decimal(x as int));
    assert(final(b)@ =~= signed_decimal(y as int));
    assert(text@ =~= coordinates(x as int, y as int));
    lemma_coordinates_short(x, y);
    assert forall|k: int| 0 <= k < r.data@.len() implies r.data@[k] == final(data)@[k] by {
        assert(plain@[k] == bg@[k % 4]);
    }
    assert(r.data@ =~= final(data)@);
}

/// The numbers on a ruler have at most eight digits.
proof fn lemma_ruler_number(m: int)
    requires
        0 < m,
        88 * m <= i32::MAX,
    ensures
        1 <= decimal(m as nat).len() <= 8,
{
    assert(vstd::arithmetic::power::pow(10, 8) == 100_000_000) by {
        reveal_with_fuel(vstd::arithmetic::power::pow, 9);
    }
    lemma_decimal_length(m as nat, 8);
}

/// Only the number that begins at the hundred to the left of a pixel can cover
/// it.
proof fn lemma_one_top_number(w: int, m: int, x: int, y: int)
    requires
        88 * w <= i32::MAX,
        top_number(w, m, x, y),
    ensures
        m == x - x % 100,
        2 <= x - m,
        2 <= y < 9,
{
    lemma_ruler_number(m);
    assert(0 <= x - (m + 2) < 48);
    assert(m % 100 == 0 && 0 <= x - m < 100 ==> x - x % 100 == m);
}

proof fn lemma_one_left_number(h: int, m: int, x: int, y: int)
    requires
        88 * h <= i32::MAX,
        left_number(h, m, x, y),
    ensures
        m == y - y % 100,
        2 <= y - m < 9,
        2 <= x < 21,
{
    lemma_ruler_number(m);
    assert(m % 100 == 0 && 0 <= y - m < 100 ==> y - y % 100 == m);
}

/// The top ruler is two and twenty pixels high and as wide as the canvas. Its
/// lowest row is a line; above it stands a tick mark every ten pixels, as long as
/// the mark for that column; the rows between the marks and the numbers, and
/// above the numbers, are empty.
pub proof fn top_rulers_have_ticks(
    width: i32,
    img: Image,
    x: i32,
    y: int,
    c: int,
    len: i32,
)
    requires
        call_ensures(render_top_ruler, (width,), img),
        call_ensures(tick_length, (x,), len),
        1 <= width,
        88 * width <= i32::MAX,
        0 <= x < width,
        0 <= y < 22,
        0 <= c < 4,
    ensures
        img.size == (Size { w: width, h: 22 }),
        ({
            let b = img.data@[byte_at(width as int, x as int, y, c)];
            let line = seq![180u8, 100u8, 255u8, 255u8][c];
            let ground = seq![35u8, 25u8, 25u8, 220u8][c];
            &&& y == 21 ==> b == line
            &&& 11 <= y < 21 ==> b == if x % 10 == 0 && y >= 21 - len {
                line
            } else {
                ground
            }
            &&& y < 2 || y == 9 || y == 10 ==> b == ground
        }),
{
    let w = width as int;
    lemma_byte_at(w, 22, x as int, y, c);
    if exists|m: int| #[trigger] top_number(w, m, x as int, y) {
        let m = choose|m: int| #[trigger] top_number(w, m, x as int, y);
        lemma_one_top_number(w, m, x as int, y);
    }
    assert(top_ruler(w)(x as int, y) == (y == 21 || (x % 10 == 0 && 21 - tick(x as int) <= y < 21)
        || exists|m: int| #[trigger] top_number(w, m, x as int, y)));
}

/// Where the top ruler has a number it is that of its hundred, drawn two pixels
/// right of the mark and two below the top, unless it would reach the end of the
/// ruler. `m` is the hundred left of the pixel, `text` its number.
pub proof fn top_rulers_have_numbers(
    width: i32,
    img: Image,
    m: u64,
    number: &mut String,
    text: &str,
    text_w: i32,
    i: int,
    g: Option<[u8; 5]>,
    col: int,
    row: int,
    c: int,
)
    requires
        call_ensures(render_top_ruler, (width,), img),
        88 * width <= i32::MAX,
        0 < m,
        m % 100 == 0,
        old(number)@.len() == 0,
        call_ensures(push_decimal, (number, m), ()),
        text@ == final(number)@,
        call_ensures(label_width, (text,), text_w),
        0 <= i < text@.len(),
        call_ensures(glyph, (text@[i],), g),
        0 <= col < 6,
        0 <= row < 7,
        0 <= c < 4,
        m + 2 + 6 * i + col < width,
    ensures
        ({
            let b = img.data@[byte_at(width as int, m + 2 + 6 * i + col, 2 + row, c)];
            let lit = m + 2 + text_w < width && col < 5 && (g matches Some(columns) && (columns@[col]
                >> (row as u8)) & 1 == 1);
            b == if lit {
                seq![180u8, 100u8, 255u8, 255u8][c]
            } else {
                seq![35u8, 25u8, 25u8, 220u8][c]
            }
        }),
{
    let w = width as int;
    let x = m + 2 + 6 * i + col;
    let y = 2 + row;
    lemma_byte_at(w, 22, x, y, c);
    lemma_ruler_number(m as int);
    assert(text@ =~= decimal(m as nat));
    assert((6 * i + col) / 6 == i && (6 * i + col) % 6 == col);
    assert(x - x % 100 == m);
    assert forall|other: int| #[trigger] top_number(w, other, x, y) implies other == m by {
        lemma_one_top_number(w, other, x, y);
    }
    assert(text_lit(decimal(m as nat), x - (m + 2), y - 2) == (col < 5 && (g matches Some(columns)
        && (columns@[col] >> (row as u8)) & 1 == 1)));
    assert(top_number(w, m as int, x, y) == (m + 2 + text_w < width && text_lit(
        decimal(m as nat),
        x - (m + 2),
        y - 2,
    )));
    assert(top_ruler(w)(x, y) == (y == 21 || (x % 10 == 0 && 21 - tick(x) <= y < 21) || exists|m2: int|
        #[trigger] top_number(w, m2, x, y)));
}

/// Before the first hundred and behind a number the top ruler shows none.
pub proof fn top_rulers_are_empty_between_numbers(
    width: i32,
    img: Image,
    x: int,
    y: int,
    c: int,
    m: u64,
    number: &mut String,
)
    requires
        call_ensures(render_top_ruler, (width,), img),
        88 * width <= i32::MAX,
        0 <= x < width,
        2 <= y < 9,
        0 <= c < 4,
        m == x - x % 100,
        old(number)@.len() == 0,
        call_ensures(push_decimal, (number, m), ()),
        m == 0 || x < m + 2 || x >= m + 2 + 6 * final(number)@.len(),
    ensures
        img.data@[byte_at(width as int, x, y, c)] == seq![35u8, 25u8, 25u8, 220u8][c],
{
    let w = width as int;
    lemma_byte_at(w, 22, x, y, c);
    assert(final(number)@ =~= decimal(m as nat));
    assert forall|other: int| !#[trigger] top_number(w, other, x, y) by {
        if top_number(w, other, x, y) {
            lemma_one_top_number(w, other, x, y);
        }
    }
    assert(top_ruler(w)(x, y) == (y == 21 || (x % 10 == 0 && 21 - tick(x) <= y < 21) || exists|m2: int|
        #[trigger] top_number(w, m2, x, y)));
}

/// The left ruler is the top one turned: two and twenty pixels wide, a line in
/// its last column and tick marks to the left of it every ten rows. Numbers stand
/// in the second to the eighth row below their mark, nothing in the rows between.
pub proof fn left_rulers_have_ticks(
    height: i32,
    img: Image,
    x: int,
    y: i32,
    c: int,
    len: i32,
)
    requires
        call_ensures(render_left_ruler, (height,), img),
        call_ensures(tick_length, (y,), len),
        1 <= height,
        88 * height <= i32::MAX,
        0 <= x < 22,
        0 <= y < height,
        0 <= c < 4,
    ensures
        img.size == (Size { w: 22, h: height }),
        ({
            let b = img.data@[byte_at(22, x, y as int, c)];
            let line = seq![180u8, 100u8, 255u8, 255u8][c];
            let ground = seq![35u8, 25u8, 25u8, 220u8][c];
            &&& x == 21 ==> b == line
            &&& x < 21 && y % 10 == 0 ==> b == if x >= 21 - len {
                line
            } else {
                ground
            }
            &&& x < 21 && y % 10 != 0 && (y < 100 || y % 100 < 2 || y % 100 > 8 || x < 2) ==> b
                == ground
        }),
{
    let h = height as int;
    lemma_byte_at(22, h, x, y as int, c);
    if exists|m: int| #[trigger] left_number(h, m, x, y as int) {
        let m = choose|m: int| #[trigger] left_number(h, m, x, y as int);
        lemma_one_left_number(h, m, x, y as int);
    }
    assert(left_ruler(h)(x, y as int) == (x == 21 || (y % 10 == 0 && 21 - tick(y as int) <= x < 21)
        || exists|m: int| #[trigger] left_number(h, m, x, y as int)));
}

/// A number of the left ruler is drawn two pixels from the left and below its
/// mark, where it fits both ways; where it does not, nothing is.
pub proof fn left_rulers_have_numbers(
    height: i32,
    img: Image,
    m: u64,
    number: &mut String,
    text: &str,
    text_w: i32,
    i: int,
    g: Option<[u8; 5]>,
    col: int,
    row: int,
    c: int,
)
    requires
        call_ensures(render_left_ruler, (height,), img),
        88 * height <= i32::MAX,
        0 < m,
        m % 100 == 0,
        old(number)@.len() == 0,
        call_ensures(push_decimal, (number, m), ()),
        text@ == final(number)@,
        call_ensures(label_width, (text,), text_w),
        0 <= i < text@.len(),
        call_ensures(glyph, (text@[i],), g),
        0 <= col < 6,
        2 + 6 * i + col < 21,
        0 <= row < 7,
        0 <= c < 4,
        m + 2 + row < height,
    ensures
        ({
            let b = img.data@[byte_at(22, 2 + 6 * i + col, m + 2 + row, c)];
            let lit = 2 + text_w < 22 && m + 9 < height && col < 5 && (g matches Some(columns) && (
            columns@[col] >> (row as u8)) & 1 == 1);
            b == if lit {
                seq![180u8, 100u8, 255u8, 255u8][c]
            } else {
                seq![35u8, 25u8, 25u8, 220u8][c]
            }
        }),
{
    let h = height as int;
    let x = 2 + 6 * i + col;
    let y = m + 2 + row;
    lemma_byte_at(22, h, x, y, c);
    lemma_ruler_number(m as int);
    assert(text@ =~= decimal(m as nat));
    assert((6 * i + col) / 6 == i && (6 * i + col) % 6 == col);
    assert(y - y % 100 == m);
    assert(y % 10 != 0);
    assert forall|other: int| #[trigger] left_number(h, other, x, y) implies other == m by {
        lemma_one_left_number(h, other, x, y);
    }
    assert(text_lit(decimal(m as nat), x - 2, y - (m + 2)) == (col < 5 && (g matches Some(columns)
        && (columns@[col] >> (row as u8)) & 1 == 1)));
    assert(left_number(h, m as int, x, y) == (2 + text_w < 22 && m + 9 < height && text_lit(
        decimal(m as nat),
        x - 2,
        y - (m + 2),
    )));
    assert(left_ruler(h)(x, y) == (x == 21 || (y % 10 == 0 && 21 - tick(y) <= x < 21) || exists|m2: int|
        #[trigger] left_number(h, m2, x, y)));
}

/// A fresh overlay is off; off, or without a cursor, it shows nothing and draws
/// nothing.
pub proof fn measuring_needs_a_cursor(
    fresh: MeasureOverlay,
    a: &mut MeasureOverlay,
    on: bool,
    b: &mut MeasureOverlay,
    cursor: Option<Point>,
    canvas: Rect,
    cursor_phys: Point,
    canvas_phys: Rect,
    r: Vec<MeasureElement>,
)
    requires
        call_ensures(MeasureOverlay::new, (), fresh),
        call_ensures(MeasureOverlay::set_enabled, (a, on), ()),
        *old(b) == *final(a),
        call_ensures(
            MeasureOverlay::build_elements,
            (b, cursor, canvas, cursor_phys, canvas_phys),
            r,
        ),
    ensures
        !fresh.enabled,
        final(a).enabled == on,
        final(b).enabled == on,
        final(a).last_pos == old(a).last_pos,
        final(a).last_output == old(a).last_output,
        (r@.len() > 0) == (on && cursor is Some),
        r@.len() == 0 ==> final(b).last_pos == old(a).last_pos && final(b).last_output == old(
            a,
        ).last_output && final(b).lines_commit == old(a).lines_commit,
{
}

/// With a cursor the overlay shows, from the top, its label, a line through it
/// across the canvas, one down the canvas, and the two rulers. The images are
/// those for the cursor's place on the canvas and for the canvas's size. The
/// label lies eight pixels right of the cursor, or left of it where it would
/// leave the canvas, and likewise below or above.
pub proof fn the_cursor_is_measured(
    o: &mut MeasureOverlay,
    cursor: Point,
    canvas: Rect,
    cursor_phys: Point,
    canvas_phys: Rect,
    r: Vec<MeasureElement>,
    label: Image,
    top: Image,
    left: Image,
)
    requires
        call_ensures(
            MeasureOverlay::build_elements,
            (o, Some(cursor), canvas, cursor_phys, canvas_phys),
            r,
        ),
        old(o).enabled,
        old(o).wf(),
        measurable(cursor, canvas),
        call_ensures(
            render_label,
            ((cursor.x - canvas.x) as i32, (cursor.y - canvas.y) as i32),
            label,
        ),
        call_ensures(render_top_ruler, (canvas.w,), top),
        call_ensures(render_left_ruler, (canvas.h,), left),
    ensures
        r@.len() == 5,
        r@[0] matches MeasureElement::CursorLabel { at } && {
            &&& cursor.x + 8 + label.size.w <= canvas.x + canvas.w ==> at.x == cursor.x + 8
            &&& cursor.x + 8 + label.size.w > canvas.x + canvas.w ==> at.x + label.size.w + 8
                == cursor.x
            &&& cursor.y + 8 + label.size.h <= canvas.y + canvas.h ==> at.y == cursor.y + 8
            &&& cursor.y + 8 + label.size.h > canvas.y + canvas.h ==> at.y + label.size.h + 8
                == cursor.y
        },
        r@[1] matches MeasureElement::Line(l) && l.y == cursor_phys.y && l.h == 1 && l.x
            == canvas_phys.x && l.w == canvas_phys.w,
        r@[2] matches MeasureElement::Line(l) && l.x == cursor_phys.x && l.w == 1 && l.y
            == canvas_phys.y && l.h == canvas_phys.h,
        r@[3] is TopRuler,
        r@[4] is LeftRuler,
        final(o).label.size == label.size && final(o).label.data@ == label.data@,
        final(o).top_ruler.size == top.size && final(o).top_ruler.data@ == top.data@,
        final(o).left_ruler.size == left.size && final(o).left_ruler.data@ == left.data@,
        old(o).last_pos matches Some(p) && p.x == cursor.x - canvas.x && p.y == cursor.y - canvas.y
            ==> final(o).lines_commit == old(o).lines_commit,
        !(old(o).last_pos matches Some(p) && p.x == cursor.x - canvas.x && p.y == cursor.y
            - canvas.y) ==> final(o).lines_commit != old(o).lines_commit,
{
    assert(final(o).label.data@ =~= label.data@);
    assert(final(o).top_ruler.data@ =~= top.data@);
    assert(final(o).left_ruler.data@ =~= left.data@);
    assert(old(o).lines_commit.wrapping_add(1) != old(o).lines_commit);
}

} // verus!
