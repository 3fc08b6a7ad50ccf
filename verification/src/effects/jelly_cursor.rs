//! The jelly cursor: when the text caret of Emacs moves, a shape stretches from
//! where it was to where it is.
//!
//! Kept here are the state of the animation and the colors; the shape between
//! two places is drawn from the share of the time that has passed.

use crate::geometry::Rect;
use crate::text::{chars_of, is_white_space, lemma_trimmed_cut, trim_bounds, trimmed};
use vstd::prelude::*;

verus! {

/// How long the caret takes from one place to the next, in nanoseconds.
pub const DURATION: u64 = 200_000_000;

/// The alpha of colors that are given without one.
pub const COLOR_ALPHA: u8 = 0xc8;

#[derive(Debug, Clone, Copy, PartialEq, Eq, Structural)]
pub enum AnimState {
    /// No caret is known.
    Idle,
    /// The caret stands here.
    Primed(Rect),
    /// The caret moves from one place to another since `start`.
    Animating { from: Rect, to: Rect, start: u64 },
}

impl AnimState {
    /// Where the caret is known to be, or to be going.
    pub open spec fn caret(self) -> Option<Rect> {
        match self {
            AnimState::Idle => None,
            AnimState::Primed(r) => Some(r),
            AnimState::Animating { to, .. } => Some(to),
        }
    }

    pub fn last_rect(&self) -> (r: Option<Rect>)
        ensures
            r == self.caret(),
    {
        match *self {
            AnimState::Idle => None,
            AnimState::Primed(r) => Some(r),
            AnimState::Animating { to, .. } => Some(to),
        }
    }
}

// ---------------------------------------------------------------------------
// Colors
// ---------------------------------------------------------------------------

/// The value of a hexadecimal digit in either case.
pub open spec fn hex_value(c: char) -> Option<int> {
    if '0' <= c <= '9' {
        Some(c as int - 48)
    } else if 'a' <= c <= 'f' {
        Some(c as int - 87)
    } else if 'A' <= c <= 'F' {
        Some(c as int - 55)
    } else {
        None
    }
}

/// The number that two hexadecimal digits stand for.
pub open spec fn hex_pair(a: char, b: char) -> Option<u8> {
    match (hex_value(a), hex_value(b)) {
        (Some(high), Some(low)) => Some((16 * high + low) as u8),
        _ => None,
    }
}

/// What is left without the number sign in front.
pub open spec fn without_sign(s: Seq<char>) -> Seq<char> {
    if s.len() > 0 && s[0] == '#' {
        s.skip(1)
    } else {
        s
    }
}

/// The color that `RRGGBB` or `RRGGBBAA` stands for, with a number sign in front
/// and white space around allowed, as blue, green, red, alpha.
pub open spec fn hex_color(text: Seq<char>) -> Option<Seq<u8>> {
    let s = without_sign(trimmed(text));
    if s.len() == 6 || s.len() == 8 {
        let alpha = if s.len() == 6 {
            Some(COLOR_ALPHA)
        } else {
            hex_pair(s[6], s[7])
        };
        match (hex_pair(s[0], s[1]), hex_pair(s[2], s[3]), hex_pair(s[4], s[5]), alpha) {
            (Some(r), Some(g), Some(b), Some(a)) => Some(seq![b, g, r, a]),
            _ => None,
        }
    } else {
        None
    }
}

fn hex_digit(c: char) -> (r: Option<u8>)
    ensures
        match r {
            Some(v) => v < 16 && hex_value(c) == Some(v as int),
            None => hex_value(c) is None,
        },
{
    if '0' <= c && c <= '9' {
        Some((c as u32 - 48) as u8)
    } else if 'a' <= c && c <= 'f' {
        Some((c as u32 - 87) as u8)
    } else if 'A' <= c && c <= 'F' {
        Some((c as u32 - 55) as u8)
    } else {
        None
    }
}

fn parse_pair(a: char, b: char) -> (r: Option<u8>)
    ensures
        r == hex_pair(a, b),
{
    match (hex_digit(a), hex_digit(b)) {
        (Some(high), Some(low)) => Some(16 * high + low),
        _ => None,
    }
}

/// Parses a color as `#RRGGBB` or `#RRGGBBAA`, in either case; the number sign
/// may be left out.
pub fn parse_hex_color(s: &str) -> (r: Option<[u8; 4]>)
    ensures
        match r {
            Some(color) => hex_color(s@) == Some(color@),
            None => hex_color(s@) is None,
        },
{
    let chars = chars_of(s);
    assert(chars@.take(chars@.len() as int) =~= chars@);
    let (start, end) = trim_bounds(chars.as_slice(), chars.len());
    let from: usize = if start < end && chars[start] == '#' {
        start + 1
    } else {
        start
    };
    let ghost body = without_sign(trimmed(s@));
    assert(body =~= chars@.subrange(from as int, end as int));
    let n: usize = end - from;
    if n != 6 && n != 8 {
        return None;
    }
    let red: u8 = match parse_pair(chars[from], chars[from + 1]) {
        Some(v) => v,
        None => return None,
    };
    let green: u8 = match parse_pair(chars[from + 2], chars[from + 3]) {
        Some(v) => v,
        None => return None,
    };
    let blue: u8 = match parse_pair(chars[from + 4], chars[from + 5]) {
        Some(v) => v,
        None => return None,
    };
    let alpha: u8 = if n == 6 {
        COLOR_ALPHA
    } else {
        match parse_pair(chars[from + 6], chars[from + 7]) {
            Some(v) => v,
            None => return None,
        }
    };
    let color: [u8; 4] = [blue, green, red, alpha];
    assert(color@ =~= seq![blue, green, red, alpha]);
    Some(color)
}

/// Half-way to white, rounded down.
pub open spec fn half_white(v: u8) -> u8 {
    ((v + 255) / 2) as u8
}

/// A color half-way to white; its alpha stays.
pub open spec fn lighter(c: Seq<u8>) -> Seq<u8> {
    seq![half_white(c[0]), half_white(c[1]), half_white(c[2]), c[3]]
}

fn mix_white(v: u8) -> (r: u8)
    ensures
        r == half_white(v),
{
    ((v as u16 + 255) / 2) as u8
}

/// A color half-way to white; its alpha stays.
pub fn lighter_bgra(c: [u8; 4]) -> (r: [u8; 4])
    ensures
        r@ == lighter(c@),
{
    let lit: [u8; 4] = [mix_white(c[0]), mix_white(c[1]), mix_white(c[2]), c[3]];
    assert(lit@ =~= lighter(c@));
    lit
}

// ---------------------------------------------------------------------------
// The overlay
// ---------------------------------------------------------------------------

/// How far the caret has come.
#[derive(Debug, Clone, Copy, PartialEq, Eq, Structural)]
pub struct Progress {
    /// Nanoseconds out of [`DURATION`].
    pub elapsed: u64,
    pub from: Rect,
    pub to: Rect,
}

#[derive(Debug)]
pub struct JellyCursor {
    pub enabled: bool,
    pub state: AnimState,
    /// The color at the caret's new place: blue, green, red, alpha.
    pub color_solid: [u8; 4],
    /// The color at its old place.
    pub color_light: [u8; 4],
}

/// The nanoseconds from `start` to `now`.
pub open spec fn since(start: u64, now: u64) -> int {
    if now >= start {
        now - start
    } else {
        0
    }
}

/// The state when the caret is reported at `rect` at time `now`. The first
/// report only primes the animation; the place last reported again changes
/// nothing; another place starts a movement from the one before, also in the
/// middle of one.
pub open spec fn moved(state: AnimState, rect: Option<Rect>, now: u64) -> AnimState {
    match rect {
        None => AnimState::Idle,
        Some(target) => match state.caret() {
            None => AnimState::Primed(target),
            Some(last) => if last == target {
                state
            } else {
                AnimState::Animating { from: last, to: target, start: now }
            },
        },
    }
}

impl JellyCursor {
    /// The lighter color is that of the solid one.
    pub open spec fn wf(&self) -> bool {
        self.color_light@ == lighter(self.color_solid@)
    }

    pub fn new() -> (r: JellyCursor)
        ensures
            r.wf(),
            r.enabled,
            r.state == AnimState::Idle,
            r.color_solid@ == seq![0xebu8, 0xdcu8, 0x89u8, 0xc8u8],
    {
        let solid: [u8; 4] = [0xeb, 0xdc, 0x89, 0xc8];
        assert(solid@ =~= seq![0xebu8, 0xdcu8, 0x89u8, 0xc8u8]);
        JellyCursor {
            enabled: true,
            state: AnimState::Idle,
            color_solid: solid,
            color_light: lighter_bgra(solid),
        }
    }

    /// Turned off, it forgets the caret.
    pub fn set_enabled(&mut self, enabled: bool)
        ensures
            *final(self) == (JellyCursor {
                enabled,
                state: if enabled {
                    old(self).state
                } else {
                    AnimState::Idle
                },
                ..*old(self)
            }),
    {
        self.enabled = enabled;
        if !enabled {
            self.state = AnimState::Idle;
        }
    }

    /// Takes the color from its text; text that is no color is ignored.
    pub fn set_color_hex(&mut self, hex: &str)
        requires
            old(self).wf(),
        ensures
            final(self).wf(),
            final(self).enabled == old(self).enabled,
            final(self).state == old(self).state,
            match hex_color(hex@) {
                Some(color) => final(self).color_solid@ == color,
                None => final(self).color_solid == old(self).color_solid,
            },
    {
        match parse_hex_color(hex) {
            Some(color) => {
                self.color_solid = color;
                self.color_light = lighter_bgra(color);
            },
            None => {},
        }
    }

    /// The caret was reported at this place of the canvas, or is gone.
    pub fn update(&mut self, rect: Option<Rect>, now: u64)
        ensures
            *final(self) == if old(self).enabled {
                JellyCursor { state: moved(old(self).state, rect, now), ..*old(self) }
            } else {
                *old(self)
            },
    {
        if !self.enabled {
            return;
        }
        let target = match rect {
            Some(r) => r,
            None => {
                self.state = AnimState::Idle;
                return;
            },
        };
        match self.state.last_rect() {
            None => {
                self.state = AnimState::Primed(target);
            },
            Some(last) => {
                if last == target {
                    return;
                }
                self.state = AnimState::Animating { from: last, to: target, start: now };
            },
        }
    }

    /// How far the caret has come at time `now`, while it moves.
    pub fn progress(&self, now: u64) -> (r: Option<Progress>)
        ensures
            r == match self.state {
                AnimState::Animating { from, to, start } => if since(start, now) < 200_000_000 {
                    Some(Progress { elapsed: since(start, now) as u64, from, to })
                } else {
                    None
                },
                _ => None,
            },
    {
        match self.state {
            AnimState::Animating { from, to, start } => {
                let elapsed: u64 = if now >= start {
                    now - start
                } else {
                    0
                };
                if elapsed >= DURATION {
                    None
                } else {
                    Some(Progress { elapsed, from, to })
                }
            },
            _ => None,
        }
    }

    /// Ends a movement whose time is over. Gives whether it did: then the area
    /// it covered is to be repainted.
    pub fn pre_paint(&mut self, now: u64) -> (r: bool)
        ensures
            r == (old(self).state matches AnimState::Animating { start, .. } && since(start, now)
                >= 200_000_000),
            *final(self) == if r {
                JellyCursor { state: AnimState::Primed(old(self).state->to), ..*old(self) }
            } else {
                *old(self)
            },
    {
        match self.state {
            AnimState::Animating { to, start, .. } => {
                let elapsed: u64 = if now >= start {
                    now - start
                } else {
                    0
                };
                if elapsed >= DURATION {
                    self.state = AnimState::Primed(to);
                    return true;
                }
                false
            },
            _ => false,
        }
    }

    /// Whether another frame is wanted: while the caret moves.
    pub fn post_paint(&self) -> (r: bool)
        ensures
            r == (self.state is Animating),
    {
        match self.state {
            AnimState::Animating { .. } => true,
            _ => false,
        }
    }
}

/// After the caret was lost, the next report of it starts no movement.
pub proof fn a_lost_caret_does_not_move(state: AnimState, rect: Rect, now: u64, later: u64)
    ensures
        moved(moved(state, None, now), Some(rect), later) == AnimState::Primed(rect),
{
}

/// A report in the middle of a movement starts a new one from the place that
/// the old one was going to.
pub proof fn movements_are_retargeted(from: Rect, to: Rect, start: u64, next: Rect, now: u64)
    requires
        next != to,
    ensures
        moved(AnimState::Animating { from, to, start }, Some(next), now) == (
        AnimState::Animating { from: to, to: next, start: now }),
{
}

/// Reporting the caret at one place again and again changes nothing.
pub proof fn reports_are_idempotent(state: AnimState, rect: Option<Rect>, now: u64, later: u64)
    ensures
        moved(moved(state, rect, now), rect, later) == moved(state, rect, now),
{
}

/// `c` is the hexadecimal digit for `v`, in either case.
pub open spec fn is_digit_for(c: char, v: int) -> bool {
    ||| 0 <= v <= 9 && c as int == '0' as int + v
    ||| 10 <= v <= 15 && c as int == 'a' as int + v - 10
    ||| 10 <= v <= 15 && c as int == 'A' as int + v - 10
}

/// The text has a body from `from` up to `to` and white space around it.
pub open spec fn has_body(s: Seq<char>, from: int, to: int) -> bool {
    &&& 0 <= from < to <= s.len()
    &&& forall|i: int| 0 <= i < from || to <= i < s.len() ==> is_white_space(#[trigger] s[i])
    &&& !is_white_space(s[from])
    &&& !is_white_space(s[to - 1])
}

proof fn lemma_body(s: Seq<char>, from: int, to: int)
    requires
        has_body(s, from, to),
    ensures
        trimmed(s) == s.subrange(from, to),
{
    let cut = lemma_trimmed_cut(s);
    assert(cut.0 <= from);
    assert(cut.1 >= to);
    assert(cut.0 == from);
    assert(cut.1 == to);
}

/// A color is read digit by digit: red, green and blue, two digits each, then the
/// alpha where there are two more; a number sign in front and white space around
/// do not matter.
pub proof fn colors_are_read_by_their_digits(
    s: &str,
    from: int,
    to: int,
    v: Seq<int>,
    r: Option<[u8; 4]>,
)
    requires
        call_ensures(parse_hex_color, (s,), r),
        has_body(s@, from, to),
        v.len() == 6 || v.len() == 8,
        to - from == v.len() || (to - from == v.len() + 1 && s@[from] == '#'),
        forall|i: int| 0 <= i < v.len() ==> is_digit_for(#[trigger] s@[to - v.len() + i], v[i]),
    ensures
        r matches Some(c) && {
            &&& c@[2] == 16 * v[0] + v[1]
            &&& c@[1] == 16 * v[2] + v[3]
            &&& c@[0] == 16 * v[4] + v[5]
            &&& v.len() == 8 ==> c@[3] == 16 * v[6] + v[7]
            &&& v.len() == 6 ==> c@[3] == 200
        },
{
    lemma_body(s@, from, to);
    let t = trimmed(s@);
    let body = without_sign(t);
    let n = v.len() as int;
    assert(t.len() == to - from);
    assert(t[0] == s@[from]);
    if to - from == n {
        assert(is_digit_for(s@[to - n + 0], v[0]));
        assert(t[0] != '#');
    }
    assert(body =~= s@.subrange(to - n, to));
    assert forall|i: int| 0 <= i < n implies #[trigger] hex_value(body[i]) == Some(v[i]) by {
        assert(is_digit_for(s@[to - n + i], v[i]));
    }
    assert(hex_value(body[0]) == Some(v[0]) && hex_value(body[1]) == Some(v[1]));
    assert(hex_value(body[2]) == Some(v[2]) && hex_value(body[3]) == Some(v[3]));
    assert(hex_value(body[4]) == Some(v[4]) && hex_value(body[5]) == Some(v[5]));
    if n == 8 {
        assert(hex_value(body[6]) == Some(v[6]) && hex_value(body[7]) == Some(v[7]));
    }
}

/// Only six or eight hexadecimal digits are a color: a body of another length,
/// or with another character in it, is none.
pub proof fn other_texts_are_no_colors(
    s: &str,
    from: int,
    to: int,
    i: int,
    r: Option<[u8; 4]>,
)
    requires
        call_ensures(parse_hex_color, (s,), r),
        has_body(s@, from, to),
        ({
            let start = if s@[from] == '#' {
                from + 1
            } else {
                from
            };
            ||| to - start != 6 && to - start != 8
            ||| start <= i < to && forall|d: int| !is_digit_for(s@[i], d)
        }),
    ensures
        r is None,
{
    lemma_body(s@, from, to);
    let t = trimmed(s@);
    let body = without_sign(t);
    let start = if s@[from] == '#' {
        from + 1
    } else {
        from
    };
    assert(t[0] == s@[from]);
    assert(body =~= s@.subrange(start, to));
    if body.len() == 6 || body.len() == 8 {
        assert(body[i - start] == s@[i]);
        if let Some(d) = hex_value(s@[i]) {
            assert(is_digit_for(s@[i], d));
        }
        let k = i - start;
        assert(hex_value(body[k]) is None);
    }
}

/// The lighter color lies half-way between the color and white in blue, green and
/// red; the alpha stays.
pub proof fn lighter_lies_half_way_to_white(c: [u8; 4], r: [u8; 4])
    requires
        call_ensures(lighter_bgra, (c,), r),
    ensures
        forall|i: int| 0 <= i < 3 ==> 0 <= c@[i] + 255 - 2 * #[trigger] r@[i] <= 1,
        r@[3] == c@[3],
{
}

/// A color that was read is taken, and the lighter one with it; any other text
/// changes nothing.
pub proof fn colors_come_in_pairs(
    j: &mut JellyCursor,
    hex: &str,
    parsed: Option<[u8; 4]>,
    light: [u8; 4],
)
    requires
        call_ensures(JellyCursor::set_color_hex, (j, hex), ()),
        call_ensures(parse_hex_color, (hex,), parsed),
        call_ensures(lighter_bgra, (final(j).color_solid,), light),
        old(j).wf(),
    ensures
        parsed matches Some(c) ==> final(j).color_solid@ == c@,
        parsed is None ==> final(j).color_solid@ == old(j).color_solid@ && final(j).color_light@
            == old(j).color_light@,
        final(j).color_light@ == light@,
        final(j).enabled == old(j).enabled,
        final(j).state == old(j).state,
{
}

/// A fresh jelly cursor is on and knows no caret. Turned off it forgets the
/// caret, and reports are not heard until it is on again.
pub proof fn off_means_deaf(
    fresh: JellyCursor,
    a: &mut JellyCursor,
    b: &mut JellyCursor,
    on: bool,
    rect: Option<Rect>,
    now: u64,
)
    requires
        call_ensures(JellyCursor::new, (), fresh),
        call_ensures(JellyCursor::set_enabled, (a, on), ()),
        call_ensures(JellyCursor::update, (b, rect, now), ()),
        *old(b) == *final(a),
    ensures
        fresh.enabled && fresh.state is Idle,
        final(a).enabled == on && final(b).enabled == on,
        on ==> final(a).state == old(a).state,
        !on ==> final(a).state is Idle && final(b).state is Idle,
        final(b).color_solid == old(a).color_solid,
        final(b).color_light == old(a).color_light,
{
}

/// A caret reported elsewhere is on its way there for two tenths of a second from
/// the report on, from where it was going before; then it stands there, and no
/// more frames are asked for. `was` is where it was last reported.
pub proof fn carets_move_for_two_tenths_of_a_second(
    j: &mut JellyCursor,
    k: &mut JellyCursor,
    was: Rect,
    target: Rect,
    now: u64,
    later: u64,
    known: Option<Rect>,
    p: Option<Progress>,
    ended: bool,
    again: bool,
    still: bool,
)
    requires
        call_ensures(AnimState::last_rect, (&old(j).state,), known),
        known == Some(was),
        call_ensures(JellyCursor::update, (j, Some(target), now), ()),
        *old(k) == *final(j),
        call_ensures(JellyCursor::progress, (&*final(j), later), p),
        call_ensures(JellyCursor::post_paint, (&*final(j),), again),
        call_ensures(JellyCursor::pre_paint, (k, later), ended),
        call_ensures(JellyCursor::post_paint, (&*final(k),), still),
        old(j).enabled,
        was != target,
        now <= later,
    ensures
        again,
        later - now < 200_000_000 ==> {
            &&& p matches Some(q) && q.elapsed == later - now && q.from == was && q.to == target
            &&& !ended && still
            &&& final(k).state == final(j).state
        },
        later - now >= 200_000_000 ==> {
            &&& p is None
            &&& ended && !still
            &&& final(k).state == AnimState::Primed(target)
        },
        final(k).enabled,
        final(k).color_solid == old(j).color_solid,
        final(k).color_light == old(j).color_light,
{
}

/// The first report of a caret starts no movement, the same place again does not
/// disturb one, and a caret that is gone leaves nothing.
pub proof fn only_changes_move_the_caret(
    j: &mut JellyCursor,
    rect: Option<Rect>,
    now: u64,
    before: Option<Rect>,
    after: Option<Rect>,
)
    requires
        call_ensures(JellyCursor::update, (j, rect, now), ()),
        call_ensures(AnimState::last_rect, (&old(j).state,), before),
        call_ensures(AnimState::last_rect, (&final(j).state,), after),
        old(j).enabled,
    ensures
        after == rect,
        rect is None ==> final(j).state is Idle,
        before is None && rect is Some ==> final(j).state is Primed,
        rect is Some && before == rect ==> final(j).state == old(j).state,
        (before is None) == (old(j).state is Idle),
{
}

} // verus!
