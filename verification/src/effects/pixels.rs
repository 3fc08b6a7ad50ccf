//! Drawing into images of four bytes a pixel: blue, green, red, alpha.
//!
//! An image is a slice of bytes, row after row, with the width and height it
//! is read by. Byte `k` is a channel of pixel `k / 4`, which stands in column
//! `(k / 4) % w` and row `(k / 4) / w`.

use vstd::arithmetic::div_mod::{lemma_fundamental_div_mod, lemma_fundamental_div_mod_converse};
use vstd::prelude::*;

verus! {

/// Byte `k` belongs to a pixel of the image that lies in the area.
pub open spec fn lies_in(k: int, w: int, h: int, area: spec_fn(int, int) -> bool) -> bool {
    w > 0 && (k / 4) / w < h && area((k / 4) % w, (k / 4) / w)
}

/// The area has got this color, and nothing else changed.
pub open spec fn painted(
    before: Seq<u8>,
    after: Seq<u8>,
    w: int,
    h: int,
    area: spec_fn(int, int) -> bool,
    color: Seq<u8>,
) -> bool {
    &&& after.len() == before.len()
    &&& forall|k: int|
        0 <= k < before.len() ==> #[trigger] after[k] == if lies_in(k, w, h, area) {
            color[k % 4]
        } else {
            before[k]
        }
}

/// The bytes hold an image of this size, perhaps with more behind it.
pub open spec fn holds_image(data: Seq<u8>, w: int, h: int) -> bool {
    w > 0 && h > 0 ==> 4 * (w * h) <= data.len()
}

/// Two areas painted one after the other in one color are their union painted.
pub proof fn lemma_painted_union(
    a: Seq<u8>,
    b: Seq<u8>,
    c: Seq<u8>,
    w: int,
    h: int,
    first: spec_fn(int, int) -> bool,
    second: spec_fn(int, int) -> bool,
    both: spec_fn(int, int) -> bool,
    color: Seq<u8>,
)
    requires
        painted(a, b, w, h, first, color),
        painted(b, c, w, h, second, color),
        forall|x: int, y: int|
            0 <= x < w && 0 <= y < h ==> #[trigger] both(x, y) == (first(x, y) || second(x, y)),
    ensures
        painted(a, c, w, h, both, color),
{
    assert forall|k: int| 0 <= k < a.len() implies #[trigger] c[k] == if lies_in(k, w, h, both) {
        color[k % 4]
    } else {
        a[k]
    } by {
        assert(b[k] == b[k]);
        if w > 0 && (k / 4) / w < h {
            lemma_column(k / 4, w);
            assert(both((k / 4) % w, (k / 4) / w) == (first((k / 4) % w, (k / 4) / w) || second(
                (k / 4) % w,
                (k / 4) / w,
            )));
        }
    }
}

/// Areas that agree on the image are painted alike.
pub proof fn lemma_painted_same(
    a: Seq<u8>,
    b: Seq<u8>,
    w: int,
    h: int,
    first: spec_fn(int, int) -> bool,
    second: spec_fn(int, int) -> bool,
    color: Seq<u8>,
)
    requires
        painted(a, b, w, h, first, color),
        forall|x: int, y: int|
            0 <= x < w && 0 <= y < h ==> #[trigger] second(x, y) == first(x, y),
    ensures
        painted(a, b, w, h, second, color),
{
    assert forall|k: int| 0 <= k < a.len() implies #[trigger] b[k] == if lies_in(k, w, h, second) {
        color[k % 4]
    } else {
        a[k]
    } by {
        if w > 0 && (k / 4) / w < h {
            lemma_column(k / 4, w);
            assert(second((k / 4) % w, (k / 4) / w) == first((k / 4) % w, (k / 4) / w));
        }
    }
}

/// An empty area leaves the image as it is.
pub proof fn lemma_painted_nothing(
    a: Seq<u8>,
    w: int,
    h: int,
    area: spec_fn(int, int) -> bool,
    color: Seq<u8>,
)
    requires
        forall|x: int, y: int| 0 <= x < w && 0 <= y < h ==> !#[trigger] area(x, y),
    ensures
        painted(a, a, w, h, area, color),
{
    assert forall|k: int| 0 <= k < a.len() implies !lies_in(k, w, h, area) by {
        if w > 0 && (k / 4) / w < h {
            lemma_column(k / 4, w);
            assert(!area((k / 4) % w, (k / 4) / w));
        }
    }
}

/// The column and the row of a pixel are not negative, and the column is less
/// than the width.
pub proof fn lemma_column(p: int, w: int)
    requires
        0 <= p,
        w > 0,
    ensures
        0 <= p % w < w,
        0 <= p / w,
        p == w * (p / w) + p % w,
{
    lemma_fundamental_div_mod(p, w);
    assert(0 <= p / w) by (nonlinear_arith)
        requires
            0 <= p,
            w > 0,
    ;
}

/// The pixel in column `x` and row `y`.
pub proof fn lemma_place(p: int, w: int, h: int, x: int, y: int)
    requires
        p == y * w + x,
        0 <= x < w,
        0 <= y < h,
    ensures
        p % w == x,
        p / w == y,
        0 <= p < w * h,
{
    lemma_fundamental_div_mod_converse(p, w, y, x);
    assert(0 <= y * w + x < w * h) by (nonlinear_arith)
        requires
            0 <= x < w,
            0 <= y < h,
    ;
}

/// Gives the pixel in column `x` and row `y` a color, where the image has it.
pub fn put_pixel(data: &mut [u8], w: i32, h: i32, x: i64, y: i64, color: &[u8; 4])
    requires
        holds_image(old(data)@, w as int, h as int),
    ensures
        painted(
            old(data)@,
            final(data)@,
            w as int,
            h as int,
            |px: int, py: int| px == x && py == y,
            color@,
        ),
{
    let ghost before = data@;
    let ghost area = |px: int, py: int| px == x && py == y;
    if x < 0 || x >= w as i64 || y < 0 || y >= h as i64 {
        proof {
            lemma_painted_nothing(before, w as int, h as int, area, color@);
        }
        return;
    }
    let ghost p = y * w + x;
    proof {
        lemma_place(p, w as int, h as int, x as int, y as int);
        assert(y * w <= p) by (nonlinear_arith)
            requires
                p == y * w + x,
                x >= 0,
        ;
    }
    let uw: usize = w as usize;
    let ux: usize = x as usize;
    let uy: usize = y as usize;
    let size: usize = data.len();
    assert(uy * uw == y * w && 4 * (w * h) <= size);
    let off: usize = (uy * uw + ux) * 4;
    data[off] = color[0];
    data[off + 1] = color[1];
    data[off + 2] = color[2];
    data[off + 3] = color[3];
    proof {
        let after = data@;
        assert forall|k: int| 0 <= k < before.len() implies #[trigger] after[k] == if lies_in(
            k,
            w as int,
            h as int,
            area,
        ) {
            color@[k % 4]
        } else {
            before[k]
        } by {
            lemma_column(k / 4, w as int);
            if k / 4 == p {
                assert(k == 4 * p + k % 4);
                assert(after[k] == color@[k % 4]);
            } else {
                assert(after[k] == before[k]);
                if lies_in(k, w as int, h as int, area) {
                    assert(k / 4 == w * y + x);
                    assert(w * y == y * w) by (nonlinear_arith);
                }
            }
        }
    }
}

/// The pixels of a rectangle, its right and bottom edges excluded.
pub open spec fn rectangle(x: int, y: int, w: int, h: int) -> spec_fn(int, int) -> bool {
    |px: int, py: int| x <= px < x + w && y <= py < y + h
}

fn max_i64(a: i64, b: i64) -> (r: i64)
    ensures
        r == if a >= b {
            a
        } else {
            b
        },
{
    if a >= b {
        a
    } else {
        b
    }
}

fn min_i64(a: i64, b: i64) -> (r: i64)
    ensures
        r == if a <= b {
            a
        } else {
            b
        },
{
    if a <= b {
        a
    } else {
        b
    }
}

/// Paints what the image holds of a rectangle.
pub fn fill_rect(
    data: &mut [u8],
    buf_w: i32,
    buf_h: i32,
    x: i32,
    y: i32,
    w: i32,
    h: i32,
    color: [u8; 4],
)
    requires
        holds_image(old(data)@, buf_w as int, buf_h as int),
    ensures
        painted(
            old(data)@,
            final(data)@,
            buf_w as int,
            buf_h as int,
            rectangle(x as int, y as int, w as int, h as int),
            color@,
        ),
{
    let x0: i64 = max_i64(x as i64, 0);
    let y0: i64 = max_i64(y as i64, 0);
    let x1: i64 = min_i64(x as i64 + w as i64, buf_w as i64);
    let y1: i64 = min_i64(y as i64 + h as i64, buf_h as i64);
    let ghost before = data@;
    let ghost bw = buf_w as int;
    let ghost bh = buf_h as int;
    let ghost whole = rectangle(x as int, y as int, w as int, h as int);
    if x1 <= x0 || y1 <= y0 {
        proof {
            lemma_painted_nothing(before, bw, bh, whole, color@);
        }
        return;
    }
    let mut row: i64 = y0;
    proof {
        lemma_painted_nothing(
            before,
            bw,
            bh,
            rows_until(x0 as int, x1 as int, y0 as int, y0 as int),
            color@,
        );
    }
    while row < y1
        invariant
            y0 <= row <= y1 <= buf_h,
            0 <= y0,
            0 <= x0 < x1 <= buf_w,
            bw == buf_w,
            bh == buf_h,
            holds_image(data@, bw, bh),
            painted(
                before,
                data@,
                bw,
                bh,
                rows_until(x0 as int, x1 as int, y0 as int, row as int),
                color@,
            ),
        decreases y1 - row,
    {
        let ghost start = data@;
        let mut col: i64 = x0;
        proof {
            lemma_painted_nothing(start, bw, bh, rectangle(x0 as int, row as int, 0, 1), color@);
        }
        while col < x1
            invariant
                0 <= row < buf_h,
                0 <= x0 <= col <= x1 <= buf_w,
                bw == buf_w,
                bh == buf_h,
                holds_image(data@, bw, bh),
                painted(
                    start,
                    data@,
                    bw,
                    bh,
                    rectangle(x0 as int, row as int, col - x0, 1),
                    color@,
                ),
            decreases x1 - col,
        {
            let ghost here = data@;
            put_pixel(data, buf_w, buf_h, col, row, &color);
            proof {
                lemma_painted_union(
                    start,
                    here,
                    data@,
                    bw,
                    bh,
                    rectangle(x0 as int, row as int, col - x0, 1),
                    |px: int, py: int| px == col && py == row,
                    rectangle(x0 as int, row as int, col + 1 - x0, 1),
                    color@,
                );
            }
            col += 1;
        }
        proof {
            lemma_painted_union(
                before,
                start,
                data@,
                bw,
                bh,
                rows_until(x0 as int, x1 as int, y0 as int, row as int),
                rectangle(x0 as int, row as int, x1 - x0, 1),
                rows_until(x0 as int, x1 as int, y0 as int, row + 1),
                color@,
            );
        }
        row += 1;
    }
    proof {
        lemma_painted_same(
            before,
            data@,
            bw,
            bh,
            rows_until(x0 as int, x1 as int, y0 as int, y1 as int),
            whole,
            color@,
        );
    }
}

/// The rows from `y0` up to `y1` of the columns from `x0` up to `x1`.
spec fn rows_until(x0: int, x1: int, y0: int, y1: int) -> spec_fn(int, int) -> bool {
    rectangle(x0, y0, x1 - x0, y1 - y0)
}

/// Channel `c` of the pixel in column `x`, in a row that shows these colors from
/// column `x0` on and is empty beside them.
pub open spec fn span_channel(x0: int, colors: Seq<[u8; 4]>, x: int, c: int) -> u8 {
    if x0 <= x < x0 + colors.len() {
        colors[x - x0]@[c]
    } else {
        0
    }
}

/// Fills a row of the image with these colors from column `x0` on, and clears
/// the rest of it. The other rows stay.
pub fn fill_span(data: &mut [u8], w: i32, h: i32, row: i32, x0: i32, colors: &[[u8; 4]])
    requires
        0 < w,
        0 <= row < h,
        0 <= x0,
        x0 + colors@.len() <= w,
        holds_image(old(data)@, w as int, h as int),
    ensures
        final(data)@.len() == old(data)@.len(),
        forall|k: int|
            0 <= k < old(data)@.len() ==> #[trigger] final(data)@[k] == if (k / 4) / (w as int)
                == row {
                span_channel(x0 as int, colors@, (k / 4) % (w as int), k % 4)
            } else {
                old(data)@[k]
            },
{
    let ghost before = data@;
    let ghost iw = w as int;
    let ghost start = row * w;
    proof {
        lemma_place(start, iw, h as int, 0, row as int);
        lemma_place(start + (w - 1), iw, h as int, w - 1, row as int);
        assert(w * row == row * w) by (nonlinear_arith);
    }
    let size: usize = data.len();
    let uw: usize = w as usize;
    let urow: usize = row as usize;
    assert(urow * uw == row * w && 4 * (w * h) <= size);
    let base: usize = urow * uw;
    let mut x: usize = 0;
    while x < uw
        invariant
            x <= uw == w == iw,
            base == start,
            0 <= start,
            4 * (start + w) <= size == before.len() == data@.len(),
            0 <= x0,
            x0 + colors@.len() <= w,
            forall|k: int|
                0 <= k < before.len() ==> #[trigger] data@[k] == if start <= k / 4 < start + x {
                    span_channel(x0 as int, colors@, k / 4 - start, k % 4)
                } else {
                    before[k]
                },
        decreases uw - x,
    {
        let off: usize = 4 * (base + x);
        let ghost here = data@;
        let color: [u8; 4] = if x >= x0 as usize && x - (x0 as usize) < colors.len() {
            colors[x - (x0 as usize)]
        } else {
            [0, 0, 0, 0]
        };
        data[off] = color[0];
        data[off + 1] = color[1];
        data[off + 2] = color[2];
        data[off + 3] = color[3];
        assert forall|k: int| 0 <= k < before.len() implies #[trigger] data@[k] == if start <= k / 4
            < start + x + 1 {
            span_channel(x0 as int, colors@, k / 4 - start, k % 4)
        } else {
            before[k]
        } by {
            assert(here[k] == here[k]);
            if k / 4 == start + x {
                assert(k == 4 * (start + x) + k % 4);
                assert(color@[k % 4] == span_channel(x0 as int, colors@, x as int, k % 4));
            }
        }
        x += 1;
    }
    assert forall|k: int| 0 <= k < before.len() implies #[trigger] data@[k] == if (k / 4) / iw
        == row {
        span_channel(x0 as int, colors@, (k / 4) % iw, k % 4)
    } else {
        before[k]
    } by {
        let p = k / 4;
        lemma_column(p, iw);
        assert(iw * (p / iw) == w * (p / iw));
        if p / iw == row {
            assert(p == start + p % iw);
        } else if start <= p < start + w {
            lemma_fundamental_div_mod_converse(p, iw, row as int, p - start);
        }
    }
}

/// A picture in two colors: the area in one, the rest in the other.
pub open spec fn two_colored(
    data: Seq<u8>,
    w: int,
    h: int,
    area: spec_fn(int, int) -> bool,
    fg: Seq<u8>,
    bg: Seq<u8>,
) -> bool {
    &&& data.len() == 4 * (w * h)
    &&& forall|k: int|
        0 <= k < data.len() ==> #[trigger] data[k] == if lies_in(k, w, h, area) {
            fg[k % 4]
        } else {
            bg[k % 4]
        }
}

/// A new image in one color.
pub fn new_image(w: i32, h: i32, color: &[u8; 4]) -> (r: Vec<u8>)
    requires
        0 <= w,
        0 <= h,
        4 * (w * h) <= i32::MAX,
    ensures
        r@.len() == 4 * (w * h),
        forall|k: int| 0 <= k < r@.len() ==> #[trigger] r@[k] == color@[k % 4],
{
    let mut data: Vec<u8> = Vec::new();
    assert(0 <= w * h) by (nonlinear_arith)
        requires
            0 <= w,
            0 <= h,
    ;
    let n: i32 = w * h;
    let mut i: i32 = 0;
    while i < n
        invariant
            0 <= i <= n,
            data@.len() == 4 * i,
            forall|k: int| 0 <= k < data@.len() ==> #[trigger] data@[k] == color@[k % 4],
        decreases n - i,
    {
        data.push(color[0]);
        data.push(color[1]);
        data.push(color[2]);
        data.push(color[3]);
        i += 1;
    }
    data
}

/// Every pixel of the image has this color.
pub fn fill_image(data: &mut [u8], color: &[u8; 4])
    ensures
        final(data)@.len() == old(data)@.len(),
        forall|k: int|
            0 <= k < old(data)@.len() ==> #[trigger] final(data)@[k] == if 4 * (k / 4) + 4 <= old(
                data,
            )@.len() {
                color@[k % 4]
            } else {
                old(data)@[k]
            },
{
    let n: usize = data.len() / 4;
    let mut i: usize = 0;
    let ghost before = data@;
    while i < n
        invariant
            i <= n,
            n == before.len() / 4,
            before.len() <= usize::MAX,
            data@.len() == before.len(),
            forall|k: int|
                0 <= k < before.len() ==> #[trigger] data@[k] == if k / 4 < i {
                    color@[k % 4]
                } else {
                    before[k]
                },
        decreases n - i,
    {
        let off: usize = 4 * i;
        let ghost here = data@;
        data[off] = color[0];
        data[off + 1] = color[1];
        data[off + 2] = color[2];
        data[off + 3] = color[3];
        assert forall|k: int| 0 <= k < before.len() implies #[trigger] data@[k] == if k / 4 < i + 1 {
            color@[k % 4]
        } else {
            before[k]
        } by {
            assert(here[k] == here[k]);
            if k / 4 == i {
                assert(k == 4 * i + k % 4);
            }
        }
        i += 1;
    }
}

/// The place of channel `c` of the pixel in column `x` and row `y`.
pub open spec fn byte_at(w: int, x: int, y: int, c: int) -> int {
    4 * (y * w + x) + c
}

/// That place belongs to that pixel.
pub proof fn lemma_byte_at(w: int, h: int, x: int, y: int, c: int)
    requires
        0 <= x < w,
        0 <= y < h,
        0 <= c < 4,
    ensures
        byte_at(w, x, y, c) / 4 % w == x,
        byte_at(w, x, y, c) / 4 / w == y,
        byte_at(w, x, y, c) % 4 == c,
        0 <= byte_at(w, x, y, c) < 4 * (w * h),
{
    let p = y * w + x;
    lemma_place(p, w, h, x, y);
    assert((4 * p + c) / 4 == p);
    assert((4 * p + c) % 4 == c);
}

/// A pixel that is put has its color in all four channels; every other pixel
/// keeps its own, and one outside the image leaves everything as it is.
pub proof fn one_pixel_is_put(
    data: &mut [u8],
    w: i32,
    h: i32,
    x: i64,
    y: i64,
    color: &[u8; 4],
    px: int,
    py: int,
    c: int,
)
    requires
        call_ensures(put_pixel, (data, w, h, x, y, color), ()),
        4 * (w * h) <= old(data)@.len(),
        0 <= px < w,
        0 <= py < h,
        0 <= c < 4,
    ensures
        final(data)@.len() == old(data)@.len(),
        px == x && py == y ==> final(data)@[byte_at(w as int, px, py, c)] == color@[c],
        px != x || py != y ==> final(data)@[byte_at(w as int, px, py, c)] == old(
            data,
        )@[byte_at(w as int, px, py, c)],
{
    lemma_byte_at(w as int, h as int, px, py, c);
}

/// A filled rectangle has its color on every pixel of the image that lies at most
/// its width right of and its height below its corner, and nowhere else.
pub proof fn rectangles_are_filled(
    data: &mut [u8],
    size: (i32, i32),
    x: i32,
    y: i32,
    w: i32,
    h: i32,
    color: [u8; 4],
    px: int,
    py: int,
    c: int,
)
    requires
        call_ensures(fill_rect, (data, size.0, size.1, x, y, w, h, color), ()),
        4 * (size.0 * size.1) <= old(data)@.len(),
        0 <= px < size.0,
        0 <= py < size.1,
        0 <= c < 4,
    ensures
        final(data)@.len() == old(data)@.len(),
        ({
            let k = byte_at(size.0 as int, px, py, c);
            if 0 <= px - x < w && 0 <= py - y < h {
                final(data)@[k] == color@[c]
            } else {
                final(data)@[k] == old(data)@[k]
            }
        }),
{
    lemma_byte_at(size.0 as int, size.1 as int, px, py, c);
}

/// A row that is filled shows the colors side by side from its column on, and
/// nothing beside them; the other rows stay.
pub proof fn rows_are_filled(
    data: &mut [u8],
    w: i32,
    h: i32,
    row: i32,
    x0: i32,
    colors: &[[u8; 4]],
    px: int,
    py: int,
    c: int,
)
    requires
        call_ensures(fill_span, (data, w, h, row, x0, colors), ()),
        4 * (w * h) <= old(data)@.len(),
        0 <= px < w,
        0 <= py < h,
        0 <= c < 4,
    ensures
        final(data)@.len() == old(data)@.len(),
        ({
            let k = byte_at(w as int, px, py, c);
            &&& py != row ==> final(data)@[k] == old(data)@[k]
            &&& py == row && 0 <= px - x0 < colors@.len() ==> final(data)@[k] == colors@[px
                - x0]@[c]
            &&& py == row && !(0 <= px - x0 < colors@.len()) ==> final(data)@[k] == 0
        }),
{
    lemma_byte_at(w as int, h as int, px, py, c);
}

/// A new image has four bytes for each pixel, all of its color.
pub proof fn new_images_have_one_color(
    w: i32,
    h: i32,
    color: &[u8; 4],
    r: Vec<u8>,
    px: int,
    py: int,
    c: int,
)
    requires
        call_ensures(new_image, (w, h, color), r),
        0 <= px < w,
        0 <= py < h,
        0 <= c < 4,
    ensures
        r@.len() == 4 * w * h,
        r@[byte_at(w as int, px, py, c)] == color@[c],
{
    lemma_byte_at(w as int, h as int, px, py, c);
    assert(4 * (w * h) == 4 * w * h) by (nonlinear_arith);
}

/// An image that is filled has the color in every whole pixel.
pub proof fn images_are_filled(
    data: &mut [u8],
    color: &[u8; 4],
    w: int,
    h: int,
    px: int,
    py: int,
    c: int,
)
    requires
        call_ensures(fill_image, (data, color), ()),
        4 * (w * h) <= old(data)@.len(),
        0 <= px < w,
        0 <= py < h,
        0 <= c < 4,
    ensures
        final(data)@.len() == old(data)@.len(),
        final(data)@[byte_at(w, px, py, c)] == color@[c],
{
    lemma_byte_at(w, h, px, py, c);
    let p = py * w + px;
    lemma_place(p, w, h, px, py);
}

} // verus!
