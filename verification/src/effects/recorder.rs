//! The recording indicator: a red dot and a timer in the top right corner of
//! the canvas.

use crate::effects::bitmap_font::{draw_text, label_width, text_area, width_of, GLYPH_H};
use crate::effects::pixels::{new_image, two_colored};
use crate::geometry::{Point, Rect, Size};
use crate::text::{decimal, lemma_decimal_short, push_decimal};
use vstd::prelude::*;

verus! {

pub const DOT_DIAMETER: i32 = 12;

/// Between the dot and the timer.
pub const DOT_TEXT_GAP: i32 = 8;

/// From the edges of the canvas.
pub const MARGIN: i32 = 16;

/// Around the text of the timer.
pub const LABEL_PAD: i32 = 4;

pub const NANOS_PER_SEC: u64 = 1_000_000_000;

/// The timer's background: blue, green, red, alpha.
pub open spec fn timer_background() -> Seq<u8> {
    seq![30u8, 25u8, 25u8, 200u8]
}

pub open spec fn timer_foreground() -> Seq<u8> {
    seq![240u8, 240u8, 240u8, 255u8]
}

/// A number with at least two digits.
pub open spec fn two_digits(n: nat) -> Seq<char> {
    if n < 10 {
        seq!['0'] + decimal(n)
    } else {
        decimal(n)
    }
}

/// Minutes and seconds.
pub open spec fn timer_text(seconds: nat) -> Seq<char> {
    two_digits(seconds / 60) + seq![':'] + two_digits(seconds % 60)
}

fn push_two_digits(s: &mut String, n: u64)
    ensures
        final(s)@ == old(s)@ + two_digits(n as nat),
{
    let ghost before = s@;
    if n < 10 {
        s.push('0');
    }
    push_decimal(s, n);
    assert(s@ =~= before + two_digits(n as nat));
}

/// The picture of a timer.
#[derive(Debug)]
pub struct TimerLabel {
    pub size: Size,
    pub data: Vec<u8>,
}

impl TimerLabel {
    /// The label shows this many seconds.
    pub open spec fn shows(&self, seconds: nat) -> bool {
        let text = timer_text(seconds);
        &&& self.size.w == 8 + width_of(text.len() as int)
        &&& self.size.h == 15
        &&& two_colored(
            self.data@,
            self.size.w as int,
            15,
            text_area(text, 4, 4),
            timer_foreground(),
            timer_background(),
        )
    }
}

proof fn lemma_timer_text_short(seconds: nat)
    requires
        seconds <= u64::MAX,
    ensures
        5 <= timer_text(seconds).len() <= 43,
{
    lemma_decimal_short(seconds / 60);
    lemma_decimal_short(seconds % 60);
    assert forall|n: nat| n >= 10 && n <= u64::MAX implies #[trigger] decimal(n).len() >= 2 by {
        lemma_decimal_short(n / 10);
    }
}

/// The picture of the timer at this many seconds.
pub fn render_timer_label(seconds: u64) -> (r: TimerLabel)
    ensures
        r.shows(seconds as nat),
{
    let mut text = String::new();
    push_two_digits(&mut text, seconds / 60);
    text.push(':');
    push_two_digits(&mut text, seconds % 60);
    assert(text@ =~= timer_text(seconds as nat));
    proof {
        lemma_timer_text_short(seconds as nat);
    }
    let size = Size { w: LABEL_PAD * 2 + label_width(text.as_str()), h: LABEL_PAD * 2 + GLYPH_H };
    assert(4 * (size.w * size.h) <= 20000) by (nonlinear_arith)
        requires
            0 <= size.w <= 300,
            size.h == 15,
    ;
    let bg: [u8; 4] = [30, 25, 25, 200];
    let fg: [u8; 4] = [240, 240, 240, 255];
    assert(bg@ =~= timer_background());
    assert(fg@ =~= timer_foreground());
    let mut data = new_image(size.w, size.h, &bg);
    draw_text(
        data.as_mut_slice(),
        size,
        Point { x: LABEL_PAD, y: LABEL_PAD },
        text.as_str(),
        &fg,
    );
    TimerLabel { size, data }
}

/// Where the indicator stands.
#[derive(Debug, Clone, Copy, PartialEq, Eq, Structural)]
pub struct RecorderLayout {
    pub dot: Rect,
    pub label_at: Point,
}

/// The dot and the label stand side by side in the top right corner of the
/// canvas, the dot centered on the label's height.
pub open spec fn recorder_layout(canvas: Rect, label_w: int) -> RecorderLayout {
    let label_x = canvas.x + canvas.w - 16 - label_w;
    RecorderLayout {
        dot: Rect { x: (label_x - 20) as i32, y: (canvas.y + 17) as i32, w: 12, h: 12 },
        label_at: Point { x: label_x as i32, y: (canvas.y + 16) as i32 },
    }
}

/// The coordinates of the indicator on this canvas do not leave the range.
pub open spec fn indicator_fits(canvas: Rect, label_w: int) -> bool {
    &&& canvas.x + canvas.w <= i32::MAX
    &&& i32::MIN <= canvas.x + canvas.w - 36 - label_w
    &&& canvas.y + 17 <= i32::MAX
}

#[derive(Debug)]
pub struct RecorderOverlay {
    /// Since when a recording runs.
    pub started_at: Option<u64>,
    /// The seconds that the label shows.
    pub last_seconds: Option<u64>,
    pub label: TimerLabel,
    /// How often the label has changed.
    pub dot_commit: u64,
}

/// The full seconds from `started_at` to `now`.
pub open spec fn seconds_since(started_at: u64, now: u64) -> nat {
    if now >= started_at {
        ((now - started_at) / 1_000_000_000) as nat
    } else {
        0
    }
}

impl RecorderOverlay {
    pub fn new() -> (r: RecorderOverlay)
        ensures
            r.wf(),
            r.started_at is None,
            r.last_seconds is None,
            r.label.size == (Size { w: 0, h: 0 }),
            r.label.data@ == Seq::<u8>::empty(),
            r.dot_commit == 0,
    {
        RecorderOverlay {
            started_at: None,
            last_seconds: None,
            label: TimerLabel { size: Size { w: 0, h: 0 }, data: Vec::new() },
            dot_commit: 0,
        }
    }

    /// The label shows the seconds it was last drawn for.
    pub open spec fn wf(&self) -> bool {
        self.last_seconds matches Some(s) ==> self.label.shows(s as nat)
    }

    /// A recording runs since `started_at`, or none does. Hiding the indicator
    /// forgets the seconds shown; the same value again changes nothing.
    pub fn set_active(&mut self, started_at: Option<u64>)
        requires
            old(self).wf(),
        ensures
            final(self).wf(),
            *final(self) == if started_at is None && old(self).started_at is Some {
                RecorderOverlay { started_at, last_seconds: None, ..*old(self) }
            } else {
                RecorderOverlay { started_at, ..*old(self) }
            },
    {
        match started_at {
            Some(_) => {
                self.started_at = started_at;
            },
            None => {
                if self.started_at.is_some() {
                    self.started_at = None;
                    self.last_seconds = None;
                }
            },
        }
    }

    /// Whether the indicator is shown. While it is, every frame asks for the
    /// next one, so that the timer advances.
    pub fn is_enabled(&self) -> (r: bool)
        ensures
            r == (self.started_at is Some),
    {
        self.started_at.is_some()
    }

    /// Where the indicator stands on this canvas, its label drawn for the time
    /// `now`. The label changes with the second only.
    pub fn paint(&mut self, now: u64, canvas: Rect) -> (r: Option<RecorderLayout>)
        requires
            old(self).wf(),
            old(self).started_at matches Some(start) ==> indicator_fits(
                canvas,
                8 + width_of(timer_text(seconds_since(start, now)).len() as int),
            ),
        ensures
            final(self).wf(),
            match old(self).started_at {
                Some(start) => {
                    let seconds = seconds_since(start, now);
                    &&& final(self).last_seconds == Some(seconds as u64)
                    &&& final(self).started_at == old(self).started_at
                    &&& final(self).dot_commit == if old(self).last_seconds == Some(
                        seconds as u64,
                    ) {
                        old(self).dot_commit
                    } else {
                        old(self).dot_commit.wrapping_add(1)
                    }
                    &&& r == Some(recorder_layout(canvas, final(self).label.size.w as int))
                },
                None => r is None && *final(self) == *old(self),
            },
    {
        let start: u64 = match self.started_at {
            Some(start) => start,
            None => return None,
        };
        let elapsed: u64 = if now >= start {
            now - start
        } else {
            0
        };
        let seconds: u64 = elapsed / NANOS_PER_SEC;
        let same = match self.last_seconds {
            Some(s) => s == seconds,
            None => false,
        };
        if !same {
            self.last_seconds = Some(seconds);
            self.label = render_timer_label(seconds);
            self.dot_commit = self.dot_commit.wrapping_add(1);
        }
        proof {
            lemma_timer_text_short(seconds as nat);
        }
        let size = self.label.size;
        let total_w: i32 = DOT_DIAMETER + DOT_TEXT_GAP + size.w;
        let right_x: i32 = canvas.x + canvas.w - MARGIN;
        let top_y: i32 = canvas.y + MARGIN;
        let dot_x: i32 = right_x - total_w;
        let label_x: i32 = dot_x + DOT_DIAMETER + DOT_TEXT_GAP;
        let row_h: i32 = if DOT_DIAMETER >= size.h {
            DOT_DIAMETER
        } else {
            size.h
        };
        let dot_y: i32 = top_y + (row_h - DOT_DIAMETER) / 2;
        let label_y: i32 = top_y + (row_h - size.h) / 2;
        Some(
            RecorderLayout {
                dot: Rect { x: dot_x, y: dot_y, w: DOT_DIAMETER, h: DOT_DIAMETER },
                label_at: Point { x: label_x, y: label_y },
            },
        )
    }
}

/// The indicator ends at the margin from the right edge of the canvas.
pub proof fn indicator_keeps_its_margin(canvas: Rect, label_w: int)
    requires
        0 <= label_w,
        indicator_fits(canvas, label_w),
    ensures
        recorder_layout(canvas, label_w).label_at.x + label_w == canvas.x + canvas.w - 16,
        recorder_layout(canvas, label_w).dot.x + 12 + 8 == recorder_layout(
            canvas,
            label_w,
        ).label_at.x,
{
}

/// The timer's picture is its text drawn onto a plain label, four pixels from
/// each edge: the minutes and the seconds with a colon between them, each with at
/// least two digits. `m` and `n` are the minutes and the seconds written out.
pub proof fn timers_show_minutes_and_seconds(
    seconds: u64,
    r: TimerLabel,
    m: &mut String,
    n: &mut String,
    text: &str,
    w: i32,
    bg: &[u8; 4],
    fg: &[u8; 4],
    plain: Vec<u8>,
    data: &mut [u8],
)
    requires
        call_ensures(render_timer_label, (seconds,), r),
        old(m)@.len() == 0,
        old(n)@.len() == 0,
        call_ensures(push_decimal, (m, (seconds / 60) as u64), ()),
        call_ensures(push_decimal, (n, (seconds % 60) as u64), ()),
        text@ == (if seconds / 60 < 10 {
            seq!['0']
        } else {
            seq![]
        }) + final(m)@ + seq![':'] + (if seconds % 60 < 10 {
            seq!['0']
        } else {
            seq![]
        }) + final(n)@,
        call_ensures(label_width, (text,), w),
        bg@ == seq![30u8, 25u8, 25u8, 200u8],
        fg@ == seq![240u8, 240u8, 240u8, 255u8],
        call_ensures(new_image, ((w + 8) as i32, 15i32, bg), plain),
        old(data)@ == plain@,
        call_ensures(
            draw_text,
            (data, Size { w: (w + 8) as i32, h: 15 }, Point { x: 4, y: 4 }, text, fg),
            (),
        ),
    ensures
        r.size == (Size { w: (w + 8) as i32, h: 15 }),
        r.data@ == final(data)@,
{
    assert(final(m)@ =~= decimal((seconds / 60) as nat));
    assert(final(n)@ =~= decimal((seconds % 60) as nat));
    assert(text@ =~= timer_text(seconds as nat));
    lemma_timer_text_short(seconds as nat);
    let iw = (w + 8) as int;
    assert(r.data@.len() == final(data)@.len());
    assert forall|k: int| 0 <= k < r.data@.len() implies r.data@[k] == final(data)@[k] by {
        assert(plain@[k] == bg@[k % 4]);
    }
    assert(r.data@ =~= final(data)@);
}

/// The indicator is shown exactly while a recording runs, and shows the full
/// seconds since it began: `picture` is the timer at that second. It is counted
/// as changed when the second does.
pub proof fn indicators_count_the_seconds(
    o: &mut RecorderOverlay,
    now: u64,
    canvas: Rect,
    r: Option<RecorderLayout>,
    enabled: bool,
    seconds: u64,
    picture: TimerLabel,
)
    requires
        call_ensures(RecorderOverlay::paint, (o, now, canvas), r),
        call_ensures(RecorderOverlay::is_enabled, (&*old(o),), enabled),
        old(o).wf(),
        old(o).started_at matches Some(start) ==> {
            &&& start <= now ==> 1_000_000_000 * seconds <= now - start < 1_000_000_000 * (seconds
                + 1)
            &&& start > now ==> seconds == 0
        },
        call_ensures(render_timer_label, (seconds,), picture),
    ensures
        enabled == (old(o).started_at is Some),
        (r is Some) == enabled,
        final(o).started_at == old(o).started_at,
        enabled ==> {
            &&& final(o).label.size == picture.size
            &&& final(o).label.data@ == picture.data@
            &&& final(o).last_seconds == Some(seconds)
            &&& (final(o).dot_commit == old(o).dot_commit) == (old(o).last_seconds == Some(seconds))
        },
        !enabled ==> *final(o) == *old(o),
{
    if let Some(start) = old(o).started_at {
        assert(seconds_since(start, now) == seconds);
        assert(final(o).label.data@ =~= picture.data@);
        assert(old(o).dot_commit.wrapping_add(1) != old(o).dot_commit);
    }
}

/// The timer ends sixteen pixels left of the canvas's right edge and begins as
/// many below its top; the dot stands eight pixels left of it, in the middle of
/// its height.
pub proof fn indicators_stand_in_the_corner(
    o: &mut RecorderOverlay,
    now: u64,
    canvas: Rect,
    r: Option<RecorderLayout>,
)
    requires
        call_ensures(RecorderOverlay::paint, (o, now, canvas), r),
        old(o).wf(),
        old(o).started_at matches Some(start) ==> indicator_fits(
            canvas,
            8 + width_of(timer_text(seconds_since(start, now)).len() as int),
        ),
    ensures
        r matches Some(l) ==> {
            let label = final(o).label.size;
            &&& l.label_at.x + label.w + 16 == canvas.x + canvas.w
            &&& l.label_at.y == canvas.y + 16
            &&& l.dot.w == 12 && l.dot.h == 12
            &&& l.dot.x + l.dot.w + 8 == l.label_at.x
            &&& 0 <= (l.label_at.y + label.h - (l.dot.y + l.dot.h)) - (l.dot.y - l.label_at.y) <= 1
        },
{
    if let Some(start) = old(o).started_at {
        lemma_timer_text_short(seconds_since(start, now));
    }
}

/// A fresh indicator is hidden. It takes the start of the recording that it is
/// told; hidden, it forgets the second it showed, so that the next recording
/// draws its first one anew.
pub proof fn hidden_indicators_forget(
    fresh: RecorderOverlay,
    o: &mut RecorderOverlay,
    started_at: Option<u64>,
)
    requires
        call_ensures(RecorderOverlay::new, (), fresh),
        call_ensures(RecorderOverlay::set_active, (o, started_at), ()),
        old(o).started_at is None ==> old(o).last_seconds is None,
    ensures
        fresh.started_at is None && fresh.last_seconds is None,
        final(o).started_at == started_at,
        started_at is None ==> final(o).last_seconds is None,
        started_at is Some ==> final(o).last_seconds == old(o).last_seconds,
        final(o).label == old(o).label,
        final(o).dot_commit == old(o).dot_commit,
{
}

} // verus!
