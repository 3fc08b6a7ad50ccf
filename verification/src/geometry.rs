//! Points, sizes and rectangles in whole pixels.

use vstd::prelude::*;

verus! {

#[derive(Debug, Clone, Copy, PartialEq, Eq, Structural)]
pub struct Point {
    pub x: i32,
    pub y: i32,
}

#[derive(Debug, Clone, Copy, PartialEq, Eq, Structural)]
pub struct Size {
    pub w: i32,
    pub h: i32,
}

#[derive(Debug, Clone, Copy, PartialEq, Eq, Structural)]
pub struct Rect {
    pub x: i32,
    pub y: i32,
    pub w: i32,
    pub h: i32,
}

/// The larger of two numbers.
pub open spec fn max(a: int, b: int) -> int {
    if a >= b {
        a
    } else {
        b
    }
}

/// The smaller of two numbers.
pub open spec fn min(a: int, b: int) -> int {
    if a <= b {
        a
    } else {
        b
    }
}

pub fn max_i32(a: i32, b: i32) -> (r: i32)
    ensures
        r == max(a as int, b as int),
{
    if a >= b {
        a
    } else {
        b
    }
}

pub fn min_i32(a: i32, b: i32) -> (r: i32)
    ensures
        r == min(a as int, b as int),
{
    if a <= b {
        a
    } else {
        b
    }
}

/// Half of a number, rounded towards zero.
pub open spec fn half(n: int) -> int {
    if n >= 0 {
        n / 2
    } else {
        -((-n) / 2)
    }
}

pub fn half_of(n: i32) -> (r: i32)
    ensures
        r == half(n as int),
{
    if n >= 0 {
        n / 2
    } else {
        let m: i64 = -(n as i64);
        (-(m / 2)) as i32
    }
}

impl Size {
    /// Each side at least as long as that of `least`.
    pub fn at_least(self, least: Size) -> (r: Size)
        ensures
            r.w == max(self.w as int, least.w as int),
            r.h == max(self.h as int, least.h as int),
    {
        Size { w: max_i32(self.w, least.w), h: max_i32(self.h, least.h) }
    }
}

/// `a + b`, clamped to the range of an `i32`.
pub open spec fn clamped_sum(a: int, b: int) -> int {
    max(i32::MIN as int, min(i32::MAX as int, a + b))
}

impl Rect {
    /// Whether the pixel `p` lies in the rectangle, its right and bottom edges
    /// excluded. Edges beyond the coordinate range are clamped to it.
    pub open spec fn covers(self, p: Point) -> bool {
        self.x <= p.x < clamped_sum(self.x as int, self.w as int) && self.y <= p.y < clamped_sum(
            self.y as int,
            self.h as int,
        )
    }

    pub fn contains(self, p: Point) -> (r: bool)
        ensures
            r == self.covers(p),
    {
        p.x >= self.x && p.x < clamped_add(self.x, self.w) && p.y >= self.y && p.y < clamped_add(
            self.y,
            self.h,
        )
    }
}

pub fn clamped_add(a: i32, b: i32) -> (r: i32)
    ensures
        r == clamped_sum(a as int, b as int),
{
    let sum: i64 = a as i64 + b as i64;
    if sum > i32::MAX as i64 {
        i32::MAX
    } else if sum < i32::MIN as i64 {
        i32::MIN
    } else {
        sum as i32
    }
}

/// The larger of two numbers is one of them and no smaller than either; the
/// smaller one likewise. Together they are the two numbers.
pub proof fn larger_and_smaller(a: i32, b: i32, large: i32, small: i32)
    requires
        call_ensures(max_i32, (a, b), large),
        call_ensures(min_i32, (a, b), small),
    ensures
        small <= a <= large,
        small <= b <= large,
        small + large == a + b,
{
}

/// Half of a number, doubled, misses it by at most one, and is never further
/// from zero.
pub proof fn halves_round_towards_zero(n: i32, r: i32)
    requires
        call_ensures(half_of, (n,), r),
    ensures
        n >= 0 ==> 2 * r <= n <= 2 * r + 1,
        n <= 0 ==> 2 * r - 1 <= n <= 2 * r,
{
}

/// Sides are made longer where they are too short, and never shorter.
pub proof fn sides_grow_to_the_least(s: Size, least: Size, r: Size)
    requires
        call_ensures(Size::at_least, (s, least), r),
    ensures
        r.w >= s.w && r.w >= least.w && (r.w == s.w || r.w == least.w),
        r.h >= s.h && r.h >= least.h && (r.h == s.h || r.h == least.h),
{
}

/// A sum in range is exact; one beyond it stops at the end of the range that it
/// would leave.
pub proof fn sums_stay_in_range(a: i32, b: i32, r: i32)
    requires
        call_ensures(clamped_add, (a, b), r),
    ensures
        i32::MIN <= a + b <= i32::MAX ==> r == a + b,
        a + b > i32::MAX ==> r == i32::MAX,
        a + b < i32::MIN ==> r == i32::MIN,
{
}

/// A rectangle has the pixels from its corner on, as many as it is wide and
/// high; the last coordinate of the range lies in none.
pub proof fn rectangles_have_their_pixels(c: Rect, p: Point, r: bool)
    requires
        call_ensures(Rect::contains, (c, p), r),
    ensures
        r == (0 <= p.x - c.x < c.w && 0 <= p.y - c.y < c.h && p.x < i32::MAX && p.y < i32::MAX),
{
}

} // verus!
