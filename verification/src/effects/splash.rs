//! The splash screen: the word emskin, letter by letter, then a line, a
//! subtitle and a progress bar, until Emacs connects.
//!
//! When each part begins and where it stands is decided here; how a part moves
//! and fades is drawn outside.

use crate::geometry::{half, half_of, max, max_i32, Point, Rect, Size};
use vstd::prelude::*;

verus! {

/// The number of letters.
pub const LETTERS: usize = 6;

/// Nanoseconds from one letter to the next.
pub const STAGGER: u64 = 120_000_000;

/// When the line begins.
pub const LINE_DELAY: u64 = 700_000_000;

/// When the subtitle begins.
pub const SUB_DELAY: u64 = 850_000_000;

/// When all letters have landed, and the progress bar begins.
pub const ALL_LANDED: u64 = 1_070_000_000;

/// How long the screen takes to fade out.
pub const FADE_OUT: u64 = 400_000_000;

pub const GAP_WORD_LINE: i32 = 8;

pub const LINE_H: i32 = 2;

pub const GAP_LINE_SUB: i32 = 6;

pub const GAP_SUB_BAR: i32 = 12;

pub const BAR_H: i32 = 3;

/// How far the animation has come.
#[derive(Debug, Clone, Copy, PartialEq, Eq, Structural)]
pub struct SplashPhase {
    /// Nanoseconds since the first frame.
    pub elapsed: u64,
    /// Nanoseconds since the screen was dismissed.
    pub fading: Option<u64>,
}

impl SplashPhase {
    /// The letter has begun to appear.
    pub open spec fn letter_begun(self, i: int) -> bool {
        self.elapsed >= i * 120_000_000
    }

    /// The line is shown: from its time on, until the screen fades.
    pub open spec fn line_begun(self) -> bool {
        self.fading is None && self.elapsed > 700_000_000
    }

    /// The subtitle is shown; a fading screen shows it in any case.
    pub open spec fn subtitle_begun(self) -> bool {
        self.fading is Some || self.elapsed >= 850_000_000
    }

    /// The progress bar is shown.
    pub open spec fn bar_begun(self) -> bool {
        self.fading is None && self.elapsed > 1_070_000_000
    }

    pub fn shows_letter(&self, i: usize) -> (r: bool)
        requires
            i < LETTERS,
        ensures
            r == self.letter_begun(i as int),
    {
        self.elapsed >= i as u64 * STAGGER
    }

    pub fn shows_line(&self) -> (r: bool)
        ensures
            r == self.line_begun(),
    {
        self.fading.is_none() && self.elapsed > LINE_DELAY
    }

    pub fn shows_subtitle(&self) -> (r: bool)
        ensures
            r == self.subtitle_begun(),
    {
        self.fading.is_some() || self.elapsed >= SUB_DELAY
    }

    pub fn shows_bar(&self) -> (r: bool)
        ensures
            r == self.bar_begun(),
    {
        self.fading.is_none() && self.elapsed > ALL_LANDED
    }
}

/// Where the parts stand.
#[derive(Debug, Clone, Copy, PartialEq, Eq, Structural)]
pub struct SplashLayout {
    /// The top left corner of the word.
    pub word: Point,
    pub line_y: i32,
    pub subtitle: Point,
    pub bar_y: i32,
}

/// A rendered text of the screen.
#[derive(Debug, Clone, Copy, PartialEq, Eq, Structural)]
pub enum SplashLabel {
    /// A letter that began to appear `since` nanoseconds ago, and where it
    /// lands.
    Letter { index: usize, at: Point, since: u64 },
    /// The subtitle, and since when it appears; it is fully there while the
    /// screen fades.
    Subtitle { at: Point, since: Option<u64> },
}

/// A flat part of the screen.
#[derive(Debug, Clone, Copy, PartialEq, Eq, Structural)]
pub enum SplashSolid {
    Ground(Rect),
    /// The line, which grows to `full` pixels since it began.
    Line { at: Point, full: i32, since: u64 },
    /// The progress bar, which runs to and fro over `full` pixels.
    Bar { at: Point, full: i32 },
}

/// What a frame shows: all labels lie above all flat parts.
#[derive(Debug)]
pub struct SplashScene {
    pub phase: SplashPhase,
    pub labels: Vec<SplashLabel>,
    pub solids: Vec<SplashSolid>,
}

/// The sum of the letters' widths.
pub open spec fn widths(letters: Seq<Size>) -> int
    decreases letters.len(),
{
    if letters.len() == 0 {
        0
    } else {
        widths(letters.drop_last()) + letters.last().w
    }
}

/// The height of the tallest letter.
pub open spec fn tallest(letters: Seq<Size>) -> int
    decreases letters.len(),
{
    if letters.len() == 0 {
        0
    } else {
        max(tallest(letters.drop_last()), letters.last().h as int)
    }
}

/// The parts stand one below the other in the middle of the screen.
pub open spec fn splash_layout(
    word_w: int,
    letter_h: int,
    subtitle: Size,
    output: Size,
) -> SplashLayout {
    let total = letter_h + subtitle.h + 31;
    let top = half(output.h - total);
    SplashLayout {
        word: Point { x: half(output.w - word_w) as i32, y: top as i32 },
        line_y: (top + letter_h + 8) as i32,
        subtitle: Point {
            x: half(output.w - subtitle.w) as i32,
            y: (top + letter_h + 16) as i32,
        },
        bar_y: (top + letter_h + subtitle.h + 28) as i32,
    }
}

/// Where letter `i` stands: behind the letters before it, and centered on the
/// tallest one.
pub open spec fn letter_at(letters: Seq<Size>, word: Point, i: int) -> Point {
    Point {
        x: (word.x + widths(letters.take(i))) as i32,
        y: (word.y + (tallest(letters) - letters[i].h) / 2) as i32,
    }
}

/// The labels of those of the first `n` letters that have begun to appear.
pub open spec fn letter_labels(
    letters: Seq<Size>,
    word: Point,
    phase: SplashPhase,
    n: int,
) -> Seq<SplashLabel>
    decreases n,
{
    if n <= 0 {
        seq![]
    } else {
        let before = letter_labels(letters, word, phase, n - 1);
        if phase.letter_begun(n - 1) {
            before.push(
                SplashLabel::Letter {
                    index: (n - 1) as usize,
                    at: letter_at(letters, word, n - 1),
                    since: (phase.elapsed - (n - 1) * 120_000_000) as u64,
                },
            )
        } else {
            before
        }
    }
}

/// All labels: the letters, then the subtitle.
pub open spec fn splash_labels(
    letters: Seq<Size>,
    layout: SplashLayout,
    phase: SplashPhase,
) -> Seq<SplashLabel> {
    letter_labels(letters, layout.word, phase, letters.len() as int)
        + if phase.subtitle_begun() {
        seq![
            SplashLabel::Subtitle {
                at: layout.subtitle,
                since: if phase.fading is Some {
                    None
                } else {
                    Some((phase.elapsed - 850_000_000) as u64)
                },
            },
        ]
    } else {
        seq![]
    }
}

/// The flat parts: the ground, then the line and the progress bar.
pub open spec fn splash_solids(
    word_w: i32,
    layout: SplashLayout,
    phase: SplashPhase,
    output: Size,
) -> Seq<SplashSolid> {
    seq![SplashSolid::Ground(Rect { x: 0, y: 0, w: output.w, h: output.h })]
        + (if phase.line_begun() {
        seq![
            SplashSolid::Line {
                at: Point { x: layout.word.x, y: layout.line_y },
                full: word_w,
                since: (phase.elapsed - 700_000_000) as u64,
            },
        ]
    } else {
        seq![]
    }) + (if phase.bar_begun() {
        seq![
            SplashSolid::Bar { at: Point { x: layout.word.x, y: layout.bar_y }, full: word_w },
        ]
    } else {
        seq![]
    })
}

/// No side of the text is negative.
pub open spec fn is_text_size(s: Size) -> bool {
    0 <= s.w && 0 <= s.h
}

/// The width of the word and the height of all parts can be counted.
pub open spec fn texts_fit(letters: Seq<Size>, subtitle: Size) -> bool {
    &&& forall|i: int| 0 <= i < letters.len() ==> is_text_size(#[trigger] letters[i])
    &&& is_text_size(subtitle)
    &&& widths(letters) <= i32::MAX
    &&& tallest(letters) + subtitle.h + 31 <= i32::MAX
}

#[derive(Debug)]
pub struct SplashScreen {
    /// When the first frame was shown.
    pub start: Option<u64>,
    pub dismiss_time: Option<u64>,
    pub done: bool,
    /// The letters' sizes at the font size they are rendered for.
    pub letters: Vec<Size>,
    pub subtitle: Size,
    pub cached_font_size: i32,
    pub total_word_w: i32,
    pub letter_h: i32,
}

impl SplashScreen {
    /// The width and height of the word are those of its letters.
    pub open spec fn wf(&self) -> bool {
        &&& self.letters@.len() <= 6
        &&& texts_fit(self.letters@, self.subtitle)
        &&& self.total_word_w == widths(self.letters@)
        &&& self.letter_h == tallest(self.letters@)
    }

    pub fn new() -> (r: SplashScreen)
        ensures
            r.wf(),
            r.start is None,
            r.dismiss_time is None,
            !r.done,
            r.letters@ == Seq::<Size>::empty(),
            r.subtitle == (Size { w: 0, h: 0 }),
            r.cached_font_size == 0,
    {
        SplashScreen {
            start: None,
            dismiss_time: None,
            done: false,
            letters: Vec::new(),
            subtitle: Size { w: 0, h: 0 },
            cached_font_size: 0,
            total_word_w: 0,
            letter_h: 0,
        }
    }

    /// Starts to fade, once.
    pub fn dismiss(&mut self, now: u64)
        ensures
            *final(self) == (SplashScreen {
                dismiss_time: if old(self).dismiss_time is None {
                    Some(now)
                } else {
                    old(self).dismiss_time
                },
                ..*old(self)
            }),
    {
        if self.dismiss_time.is_none() {
            self.dismiss_time = Some(now);
        }
    }

    /// Whether the screen has faded out. Until then every frame asks for the
    /// next one; then it leaves the chain.
    pub fn is_done(&self) -> (r: bool)
        ensures
            r == self.done,
    {
        self.done
    }

    /// Whether the letters have to be rendered for this font size; the result
    /// goes to [`Self::rebuild`].
    pub fn needs_rebuild(&self, font_size: i32) -> (r: bool)
        ensures
            r == (font_size != self.cached_font_size),
    {
        font_size != self.cached_font_size
    }

    /// The letters and the subtitle have been rendered.
    pub fn rebuild(&mut self, font_size: i32, letters: Vec<Size>, subtitle: Size)
        requires
            letters@.len() == 6,
            texts_fit(letters@, subtitle),
        ensures
            final(self).wf(),
            final(self).letters == letters,
            final(self).subtitle == subtitle,
            final(self).cached_font_size == font_size,
            final(self).start == old(self).start,
            final(self).dismiss_time == old(self).dismiss_time,
            final(self).done == old(self).done,
    {
        let mut width: i32 = 0;
        let mut height: i32 = 0;
        let mut i: usize = 0;
        assert(letters@.take(0) =~= seq![]);
        while i < letters.len()
            invariant
                i <= letters@.len() == 6,
                texts_fit(letters@, subtitle),
                width == widths(letters@.take(i as int)),
                height == tallest(letters@.take(i as int)),
            decreases letters@.len() - i,
        {
            let size = letters[i];
            proof {
                assert(letters@.take(i + 1).drop_last() =~= letters@.take(i as int));
                lemma_word_grows(letters@, i + 1);
            }
            width = width + size.w;
            height = max_i32(height, size.h);
            i += 1;
        }
        assert(letters@.take(i as int) =~= letters@);
        self.total_word_w = width;
        self.letter_h = height;
        self.letters = letters;
        self.subtitle = subtitle;
        self.cached_font_size = font_size;
    }

    /// The screen after the frame at `now`: the first frame starts it.
    pub open spec fn framed(self, now: u64) -> SplashScreen {
        if self.done {
            self
        } else {
            SplashScreen {
                start: if self.start is None {
                    Some(now)
                } else {
                    self.start
                },
                done: self.dismiss_time matches Some(d) && now - d >= 400_000_000,
                ..self
            }
        }
    }

    /// How far the animation has come in the frame at `now`; none once the
    /// screen has faded out.
    pub open spec fn phase_at(self, now: u64) -> Option<SplashPhase> {
        if self.framed(now).done {
            None
        } else {
            Some(
                SplashPhase {
                    elapsed: (now - self.framed(now).start->0) as u64,
                    fading: match self.dismiss_time {
                        Some(d) => Some((now - d) as u64),
                        None => None,
                    },
                },
            )
        }
    }

    /// Starts the frame at `now`. Once the screen has faded out there is nothing
    /// more to show.
    pub fn begin_frame(&mut self, now: u64) -> (r: Option<SplashPhase>)
        requires
            old(self).start matches Some(s) ==> s <= now,
            old(self).dismiss_time matches Some(d) ==> d <= now,
        ensures
            *final(self) == old(self).framed(now),
            r == old(self).phase_at(now),
    {
        if self.done {
            return None;
        }
        let start: u64 = match self.start {
            Some(start) => start,
            None => now,
        };
        self.start = Some(start);
        let fading: Option<u64> = match self.dismiss_time {
            Some(d) => {
                let t: u64 = now - d;
                if t >= FADE_OUT {
                    self.done = true;
                    return None;
                }
                Some(t)
            },
            None => None,
        };
        Some(SplashPhase { elapsed: now - start, fading })
    }

    /// Where the parts stand on a screen of this size.
    pub fn layout(&self, output: Size) -> (r: SplashLayout)
        requires
            self.wf(),
            0 <= output.w,
            0 <= output.h,
        ensures
            r == splash_layout(
                self.total_word_w as int,
                self.letter_h as int,
                self.subtitle,
                output,
            ),
    {
        proof {
            lemma_word_bounds(self.letters@);
        }
        let total: i32 = self.letter_h + GAP_WORD_LINE + LINE_H + GAP_LINE_SUB + self.subtitle.h
            + GAP_SUB_BAR + BAR_H;
        let top: i32 = half_of(output.h - total);
        let line_y: i32 = top + self.letter_h + GAP_WORD_LINE;
        let sub_y: i32 = line_y + LINE_H + GAP_LINE_SUB;
        let bar_y: i32 = sub_y + self.subtitle.h + GAP_SUB_BAR;
        SplashLayout {
            word: Point { x: half_of(output.w - self.total_word_w), y: top },
            line_y,
            subtitle: Point { x: half_of(output.w - self.subtitle.w), y: sub_y },
            bar_y,
        }
    }

    /// Where letter `i` of the word stands: behind the letters before it, and
    /// centered on the tallest one.
    pub fn letter_place(&self, layout: SplashLayout, i: usize) -> (r: Point)
        requires
            self.wf(),
            i < self.letters@.len(),
            layout.word.x + self.total_word_w <= i32::MAX,
            layout.word.y + self.letter_h <= i32::MAX,
        ensures
            r.x == layout.word.x + widths(self.letters@.take(i as int)),
            r.y == layout.word.y + (self.letter_h - self.letters@[i as int].h) / 2,
    {
        let mut x: i32 = layout.word.x;
        let mut k: usize = 0;
        assert(self.letters@.take(0) =~= seq![]);
        while k < i
            invariant
                k <= i < self.letters@.len(),
                self.wf(),
                layout.word.x + self.total_word_w <= i32::MAX,
                x == layout.word.x + widths(self.letters@.take(k as int)),
            decreases i - k,
        {
            proof {
                assert(self.letters@.take(k + 1).drop_last() =~= self.letters@.take(k as int));
                lemma_word_grows(self.letters@, k as int);
                lemma_word_grows(self.letters@, k + 1);
            }
            x = x + self.letters[k].w;
            k += 1;
        }
        proof {
            lemma_word_bounds(self.letters@);
            assert(is_text_size(self.letters@[i as int]));
        }
        Point { x, y: layout.word.y + (self.letter_h - self.letters[i].h) / 2 }
    }

    /// What the frame at `now` shows on a screen of this size; none once the
    /// screen has faded out.
    pub fn build_elements(&mut self, now: u64, output: Size) -> (r: Option<SplashScene>)
        requires
            old(self).wf(),
            old(self).start matches Some(s) ==> s <= now,
            old(self).dismiss_time matches Some(d) ==> d <= now,
            0 <= output.w,
            0 <= output.h,
        ensures
            *final(self) == old(self).framed(now),
            r is Some == old(self).phase_at(now) is Some,
            r matches Some(scene) ==> {
                let phase = old(self).phase_at(now)->0;
                let layout = splash_layout(
                    old(self).total_word_w as int,
                    old(self).letter_h as int,
                    old(self).subtitle,
                    output,
                );
                &&& scene.phase == phase
                &&& scene.labels@ == splash_labels(old(self).letters@, layout, phase)
                &&& scene.solids@ == splash_solids(old(self).total_word_w, layout, phase, output)
            },
    {
        let phase = match self.begin_frame(now) {
            Some(phase) => phase,
            None => return None,
        };
        let layout = self.layout(output);
        proof {
            lemma_word_bounds(self.letters@);
        }
        let mut labels: Vec<SplashLabel> = Vec::new();
        let mut i: usize = 0;
        while i < self.letters.len()
            invariant
                self.wf(),
                i <= self.letters@.len(),
                layout.word.x + self.total_word_w <= i32::MAX,
                layout.word.y + self.letter_h <= i32::MAX,
                labels@ == letter_labels(self.letters@, layout.word, phase, i as int),
            decreases self.letters@.len() - i,
        {
            if phase.shows_letter(i) {
                let at = self.letter_place(layout, i);
                labels.push(
                    SplashLabel::Letter { index: i, at, since: phase.elapsed - i as u64 * STAGGER },
                );
            }
            i += 1;
        }
        if phase.shows_subtitle() {
            let since: Option<u64> = if phase.fading.is_some() {
                None
            } else {
                Some(phase.elapsed - SUB_DELAY)
            };
            labels.push(SplashLabel::Subtitle { at: layout.subtitle, since });
        }
        let mut solids: Vec<SplashSolid> = Vec::new();
        solids.push(SplashSolid::Ground(Rect { x: 0, y: 0, w: output.w, h: output.h }));
        if phase.shows_line() {
            let at = Point { x: layout.word.x, y: layout.line_y };
            let since: u64 = phase.elapsed - LINE_DELAY;
            solids.push(SplashSolid::Line { at, full: self.total_word_w, since });
        }
        if phase.shows_bar() {
            let at = Point { x: layout.word.x, y: layout.bar_y };
            solids.push(SplashSolid::Bar { at, full: self.total_word_w });
        }
        assert(labels@ =~= splash_labels(self.letters@, layout, phase));
        assert(solids@ =~= splash_solids(self.total_word_w, layout, phase, output));
        Some(SplashScene { phase, labels, solids })
    }
}

/// The first letters of a word are no wider than all of them.
proof fn lemma_word_grows(letters: Seq<Size>, n: int)
    requires
        forall|i: int| 0 <= i < letters.len() ==> is_text_size(#[trigger] letters[i]),
        0 <= n <= letters.len(),
    ensures
        0 <= widths(letters.take(n)) <= widths(letters),
    decreases letters.len(),
{
    lemma_word_bounds(letters);
    if n == letters.len() {
        assert(letters.take(n) =~= letters);
    } else {
        let rest = letters.drop_last();
        assert forall|i: int| 0 <= i < rest.len() implies is_text_size(#[trigger] rest[i]) by {
            assert(rest[i] == letters[i]);
        }
        lemma_word_grows(rest, n);
        assert(rest.take(n) =~= letters.take(n));
        assert(is_text_size(letters[letters.len() - 1]));
    }
}

/// A word has a width and a height, and no letter is taller than the tallest.
proof fn lemma_word_bounds(letters: Seq<Size>)
    requires
        forall|i: int| 0 <= i < letters.len() ==> is_text_size(#[trigger] letters[i]),
    ensures
        0 <= widths(letters),
        0 <= tallest(letters),
        forall|i: int| 0 <= i < letters.len() ==> (#[trigger] letters[i]).h <= tallest(letters),
    decreases letters.len(),
{
    if letters.len() > 0 {
        let rest = letters.drop_last();
        assert forall|i: int| 0 <= i < rest.len() implies is_text_size(#[trigger] rest[i]) by {
            assert(is_text_size(letters[i]));
        }
        lemma_word_bounds(rest);
        assert(is_text_size(letters[letters.len() - 1]));
        assert forall|i: int| 0 <= i < letters.len() implies (#[trigger] letters[i]).h
            <= tallest(letters) by {
            if i < rest.len() {
                assert(rest[i] == letters[i]);
            }
        }
    }
}

/// The parts stand below each other, and the screen's height is left evenly
/// above and below them.
pub proof fn splash_is_centered(word_w: int, letter_h: int, subtitle: Size, output: Size)
    requires
        0 <= letter_h,
        is_text_size(subtitle),
        0 <= word_w <= i32::MAX,
        0 <= output.w,
        0 <= output.h,
        letter_h + subtitle.h + 31 <= output.h,
    ensures
        ({
            let l = splash_layout(word_w, letter_h, subtitle, output);
            &&& l.word.y + letter_h < l.line_y
            &&& l.line_y + 2 < l.subtitle.y
            &&& l.subtitle.y + subtitle.h < l.bar_y
            &&& 0 <= (output.h - (l.bar_y + 3)) - l.word.y <= 1
        }),
{
}

/// The letters begin one after the other, twelve hundredths of a second apart;
/// none that has begun disappears again as time goes on.
pub proof fn letters_begin_in_order(
    a: SplashPhase,
    b: SplashPhase,
    i: usize,
    j: usize,
    shown: bool,
    later: bool,
    next: bool,
)
    requires
        i < 6 && j < 6,
        call_ensures(SplashPhase::shows_letter, (&a, i), shown),
        call_ensures(SplashPhase::shows_letter, (&b, i), later),
        call_ensures(SplashPhase::shows_letter, (&b, j), next),
        a.elapsed <= b.elapsed,
    ensures
        i == 0 ==> shown,
        shown ==> later,
        next && i <= j ==> later,
        j == i + 1 && b.elapsed == a.elapsed + 120_000_000 ==> shown == next,
{
}

/// The line begins after seven tenths of a second and the progress bar once all
/// letters have landed, after the subtitle; both end when the screen fades. The
/// subtitle begins at 85 hundredths, and a fading screen shows it in any case.
pub proof fn parts_begin_at_their_time(p: SplashPhase, line: bool, subtitle: bool, bar: bool)
    requires
        call_ensures(SplashPhase::shows_line, (&p,), line),
        call_ensures(SplashPhase::shows_subtitle, (&p,), subtitle),
        call_ensures(SplashPhase::shows_bar, (&p,), bar),
    ensures
        p.fading is Some ==> !line && !bar && subtitle,
        p.fading is None ==> {
            &&& line == (p.elapsed > 700_000_000)
            &&& subtitle == (p.elapsed >= 850_000_000)
            &&& bar == (p.elapsed > 1_070_000_000)
        },
        bar ==> line && subtitle,
{
}

/// The screen starts with its first frame and shows the time since. Once it is
/// dismissed it fades for four tenths of a second and is then done for good; a
/// second dismissal does not make it last longer.
pub proof fn screens_fade_once(
    s: &mut SplashScreen,
    t: &mut SplashScreen,
    u: &mut SplashScreen,
    at: u64,
    again: u64,
    now: u64,
    r: Option<SplashPhase>,
    done: bool,
)
    requires
        call_ensures(SplashScreen::dismiss, (s, at), ()),
        *old(t) == *final(s),
        call_ensures(SplashScreen::dismiss, (t, again), ()),
        *old(u) == *final(t),
        call_ensures(SplashScreen::begin_frame, (u, now), r),
        call_ensures(SplashScreen::is_done, (&*final(u),), done),
        old(s).dismiss_time is None,
        !old(s).done,
        at <= now,
        old(s).start matches Some(begun) ==> begun <= now,
    ensures
        final(t).dismiss_time == Some(at),
        done == (now - at >= 400_000_000),
        (r is None) == done,
        r matches Some(p) ==> {
            &&& p.fading == Some((now - at) as u64)
            &&& old(s).start matches Some(begun) ==> p.elapsed == now - begun
            &&& old(s).start is None ==> p.elapsed == 0
        },
        old(s).start is None ==> final(u).start == Some(now),
        old(s).start is Some ==> final(u).start == old(s).start,
        final(u).letters == old(s).letters,
        final(u).subtitle == old(s).subtitle,
{
}

/// A screen that nobody dismisses goes on, and one that is done shows nothing
/// more. A fresh one waits for its first frame.
pub proof fn screens_go_on_until_dismissed(
    fresh: SplashScreen,
    s: &mut SplashScreen,
    now: u64,
    r: Option<SplashPhase>,
)
    requires
        call_ensures(SplashScreen::new, (), fresh),
        call_ensures(SplashScreen::begin_frame, (s, now), r),
        old(s).start matches Some(begun) ==> begun <= now,
        old(s).dismiss_time matches Some(at) ==> at <= now,
    ensures
        fresh.start is None && fresh.dismiss_time is None && !fresh.done,
        old(s).done ==> r is None && *final(s) == *old(s),
        !old(s).done && old(s).dismiss_time is None ==> {
            &&& !final(s).done
            &&& r matches Some(p) && p.fading is None && (match old(s).start {
                Some(begun) => p.elapsed == now - begun && final(s).start == Some(begun),
                None => p.elapsed == 0 && final(s).start == Some(now),
            })
        },
{
}

/// The letters are rendered again for another font size only, and then those
/// sizes are kept: the word is as wide as its letters together and as high as the
/// highest of them.
pub proof fn words_are_made_of_letters(
    s: &mut SplashScreen,
    font_size: i32,
    letters: Vec<Size>,
    subtitle: Size,
    again: bool,
    other: i32,
    for_other: bool,
)
    requires
        call_ensures(SplashScreen::rebuild, (s, font_size, letters, subtitle), ()),
        call_ensures(SplashScreen::needs_rebuild, (&*final(s), font_size), again),
        call_ensures(SplashScreen::needs_rebuild, (&*final(s), other), for_other),
        letters@.len() == 6,
        forall|i: int| 0 <= i < 6 ==> is_text_size(#[trigger] letters@[i]),
    ensures
        !again,
        for_other == (other != font_size),
        final(s).letters@ == letters@,
        final(s).subtitle == subtitle,
        final(s).total_word_w == letters@[0].w + letters@[1].w + letters@[2].w + letters@[3].w
            + letters@[4].w + letters@[5].w,
        forall|i: int| 0 <= i < 6 ==> (#[trigger] letters@[i]).h <= final(s).letter_h,
        final(s).letter_h == 0 || exists|i: int|
            0 <= i < 6 && (#[trigger] letters@[i]).h == final(s).letter_h,
        final(s).start == old(s).start,
        final(s).dismiss_time == old(s).dismiss_time,
        final(s).done == old(s).done,
{
    lemma_word_bounds(letters@);
    lemma_tallest_is_one(letters@);
    let l = letters@;
    reveal_with_fuel(widths, 7);
    assert(l.drop_last().drop_last().drop_last().drop_last().drop_last().drop_last() =~= seq![]);
    assert(l.drop_last().drop_last().drop_last().drop_last().drop_last().last() == l[0]);
    assert(l.drop_last().drop_last().drop_last().drop_last().last() == l[1]);
    assert(l.drop_last().drop_last().drop_last().last() == l[2]);
    assert(l.drop_last().drop_last().last() == l[3]);
    assert(l.drop_last().last() == l[4]);
}

proof fn lemma_tallest_is_one(letters: Seq<Size>)
    ensures
        tallest(letters) == 0 || exists|i: int|
            0 <= i < letters.len() && (#[trigger] letters[i]).h == tallest(letters),
    decreases letters.len(),
{
    if letters.len() > 0 {
        let rest = letters.drop_last();
        lemma_tallest_is_one(rest);
        if tallest(letters) != 0 {
            if tallest(letters) == letters.last().h {
                assert(letters[letters.len() - 1].h == tallest(letters));
            } else {
                let i = choose|i: int|
                    0 <= i < rest.len() && (#[trigger] rest[i]).h == tallest(rest);
                assert(letters[i].h == tallest(letters));
            }
        }
    }
}

/// The word, the line, the subtitle and the progress bar stand below each other
/// with gaps of eight, six and twelve pixels, each in the middle of the screen's
/// width, all together in the middle of its height.
pub proof fn parts_stand_in_the_middle(s: SplashScreen, output: Size, r: SplashLayout)
    requires
        call_ensures(SplashScreen::layout, (&s, output), r),
        s.wf(),
        0 <= output.w,
        0 <= output.h,
    ensures
        r.line_y == r.word.y + s.letter_h + 8,
        r.subtitle.y == r.line_y + 2 + 6,
        r.bar_y == r.subtitle.y + s.subtitle.h + 12,
        -1 <= (output.h - (r.bar_y + 3)) - r.word.y <= 1,
        -1 <= (output.w - (r.word.x + s.total_word_w)) - r.word.x <= 1,
        -1 <= (output.w - (r.subtitle.x + s.subtitle.w)) - r.subtitle.x <= 1,
{
    lemma_word_bounds(s.letters@);
}

/// The first letter stands at the word's corner, and each one further where the
/// one before it ends; all are centered on the height of the word.
pub proof fn letters_stand_side_by_side(
    s: SplashScreen,
    layout: SplashLayout,
    i: usize,
    j: usize,
    p: Point,
    q: Point,
)
    requires
        call_ensures(SplashScreen::letter_place, (&s, layout, i), p),
        call_ensures(SplashScreen::letter_place, (&s, layout, j), q),
        s.wf(),
        j < s.letters@.len(),
        i <= j,
    ensures
        i == 0 ==> p.x == layout.word.x,
        j == i + 1 ==> q.x == p.x + s.letters@[i as int].w,
        0 <= (layout.word.y + s.letter_h - (p.y + s.letters@[i as int].h)) - (p.y - layout.word.y)
            <= 1,
{
    if i == 0 {
        assert(s.letters@.take(0) =~= seq![]);
    }
    if j == i + 1 {
        assert(s.letters@.take(j as int).drop_last() =~= s.letters@.take(i as int));
    }
    lemma_word_bounds(s.letters@);
    assert(is_text_size(s.letters@[i as int]));
}

proof fn lemma_letter_labels(letters: Seq<Size>, word: Point, phase: SplashPhase, n: int, i: int)
    requires
        0 <= i < n <= letters.len() <= 6,
        phase.letter_begun(i),
    ensures
        letter_labels(letters, word, phase, n).len() > i,
        letter_labels(letters, word, phase, n)[i] == (SplashLabel::Letter {
            index: i as usize,
            at: letter_at(letters, word, i),
            since: (phase.elapsed - i * 120_000_000) as u64,
        }),
    decreases n,
{
    lemma_letter_count(letters, word, phase, n - 1, i);
    if i < n - 1 {
        lemma_letter_labels(letters, word, phase, n - 1, i);
    }
}

/// Where a letter has begun, all before it have: as many labels as letters.
proof fn lemma_letter_count(letters: Seq<Size>, word: Point, phase: SplashPhase, n: int, i: int)
    requires
        0 <= n,
        0 <= i,
        phase.letter_begun(i),
    ensures
        n <= i ==> letter_labels(letters, word, phase, n).len() == n,
        n > i ==> letter_labels(letters, word, phase, n).len() > i,
        letter_labels(letters, word, phase, n).len() <= n,
    decreases n,
{
    if n > 0 {
        lemma_letter_count(letters, word, phase, n - 1, i);
    }
}

proof fn lemma_letters_not_begun(letters: Seq<Size>, word: Point, phase: SplashPhase, n: int, i: int)
    requires
        0 <= n <= letters.len(),
        0 <= i,
        !phase.letter_begun(i),
    ensures
        letter_labels(letters, word, phase, n).len() <= i,
    decreases n,
{
    if n > 0 {
        lemma_letters_not_begun(letters, word, phase, n - 1, i);
        if n - 1 < i {
            lemma_letter_most(letters, word, phase, n);
        }
    }
}

proof fn lemma_letter_most(letters: Seq<Size>, word: Point, phase: SplashPhase, n: int)
    requires
        0 <= n,
    ensures
        letter_labels(letters, word, phase, n).len() <= n,
    decreases n,
{
    if n > 0 {
        lemma_letter_most(letters, word, phase, n - 1);
    }
}

/// A frame shows the letters that have begun, in order, each at its place and with
/// the time since it began, and behind them the subtitle where it has begun.
pub proof fn frames_show_the_word(
    s: &mut SplashScreen,
    now: u64,
    output: Size,
    scene: SplashScene,
    layout: SplashLayout,
    i: usize,
    begun: bool,
    at: Point,
    subtitle: bool,
)
    requires
        call_ensures(SplashScreen::build_elements, (s, now, output), Some(scene)),
        old(s).wf(),
        0 <= output.w,
        0 <= output.h,
        call_ensures(SplashScreen::layout, (&*old(s), output), layout),
        i < old(s).letters@.len(),
        call_ensures(SplashPhase::shows_letter, (&scene.phase, i), begun),
        call_ensures(SplashScreen::letter_place, (&*old(s), layout, i), at),
        call_ensures(SplashPhase::shows_subtitle, (&scene.phase,), subtitle),
    ensures
        begun ==> i < scene.labels@.len() && (scene.labels@[i as int] matches SplashLabel::Letter {
            index,
            at: shown,
            since,
        } && index == i && shown == at && since + i * 120_000_000 == scene.phase.elapsed),
        !begun ==> i >= scene.labels@.len() || scene.labels@[i as int] is Subtitle,
        subtitle ==> scene.labels@.len() > 0 && (scene.labels@.last() matches SplashLabel::Subtitle {
            at: shown,
            since,
        } && shown == layout.subtitle && (match since {
            Some(t) => scene.phase.fading is None && t + 850_000_000 == scene.phase.elapsed,
            None => scene.phase.fading is Some,
        })),
        !subtitle ==> scene.labels@.len() == 0 || scene.labels@.last() is Letter,
{
    let letters = old(s).letters@;
    let n = letters.len() as int;
    let phase = scene.phase;
    let word = layout.word;
    lemma_word_bounds(letters);
    lemma_word_grows(letters, i as int);
    assert(is_text_size(letters[i as int]));
    assert(letter_at(letters, word, i as int) == at);
    lemma_letter_most(letters, word, phase, n);
    if begun {
        lemma_letter_labels(letters, word, phase, n, i as int);
    } else {
        lemma_letters_not_begun(letters, word, phase, n, i as int);
    }
    lemma_only_letters(letters, word, phase, n);
    assert(scene.labels@ == splash_labels(letters, layout, phase));
    assert(scene.labels@.take(letter_labels(letters, word, phase, n).len() as int)
        =~= letter_labels(letters, word, phase, n));
}

proof fn lemma_only_letters(letters: Seq<Size>, word: Point, phase: SplashPhase, n: int)
    requires
        0 <= n,
    ensures
        forall|k: int|
            0 <= k < letter_labels(letters, word, phase, n).len() ==> #[trigger] letter_labels(
                letters,
                word,
                phase,
                n,
            )[k] is Letter,
    decreases n,
{
    if n > 0 {
        lemma_only_letters(letters, word, phase, n - 1);
    }
}

/// A frame has a ground over the whole screen; on it the line and the progress
/// bar, where they have begun, as long as the word and below it.
pub proof fn frames_show_the_bars(
    s: &mut SplashScreen,
    now: u64,
    output: Size,
    scene: SplashScene,
    layout: SplashLayout,
    line: bool,
    bar: bool,
)
    requires
        call_ensures(SplashScreen::build_elements, (s, now, output), Some(scene)),
        old(s).wf(),
        call_ensures(SplashScreen::layout, (&*old(s), output), layout),
        call_ensures(SplashPhase::shows_line, (&scene.phase,), line),
        call_ensures(SplashPhase::shows_bar, (&scene.phase,), bar),
    ensures
        scene.solids@.len() == 1 + (if line {
            1int
        } else {
            0
        }) + (if bar {
            1int
        } else {
            0
        }),
        scene.solids@[0] matches SplashSolid::Ground(g) && g.x == 0 && g.y == 0 && g.w == output.w
            && g.h == output.h,
        line ==> (scene.solids@[1] matches SplashSolid::Line { at, full, since } && at.x
            == layout.word.x && at.y == layout.line_y && full == old(s).total_word_w && since
            + 700_000_000 == scene.phase.elapsed),
        bar ==> (scene.solids@.last() matches SplashSolid::Bar { at, full } && at.x == layout.word.x
            && at.y == layout.bar_y && full == old(s).total_word_w),
{
}

/// A frame that is built is a frame begun: the time it shows is the same, and
/// nothing is shown once the screen is done.
pub proof fn building_begins_a_frame(
    s: &mut SplashScreen,
    t: &mut SplashScreen,
    now: u64,
    output: Size,
    scene: Option<SplashScene>,
    phase: Option<SplashPhase>,
)
    requires
        call_ensures(SplashScreen::build_elements, (s, now, output), scene),
        call_ensures(SplashScreen::begin_frame, (t, now), phase),
        *old(t) == *old(s),
    ensures
        *final(s) == *final(t),
        scene is Some == phase is Some,
        scene matches Some(c) ==> phase == Some(c.phase),
{
}

} // verus!
