//! The skeleton overlay: the parts of an Emacs frame as wire frames, with a
//! panel of labels. A click on a label makes its part flash.
//!
//! The labels' texts are rendered outside; here are kept which labels have to
//! be rendered, how large they came out, and where everything stands.

use crate::geometry::{max, max_i32, min, Point, Rect, Size};
use crate::text::{push_signed, signed_decimal, str_eq};
use vstd::prelude::*;

verus! {

/// How much further in a part is drawn for each part around it.
pub const INSET_STEP: i32 = 2;

pub const MAX_INSET: i32 = 8;

/// From the panel to the edges of the screen.
pub const PANEL_MARGIN: i32 = 12;

/// Between two labels of the panel.
pub const PANEL_GAP: i32 = 1;

/// How long a part flashes, in nanoseconds.
pub const FLASH_DURATION: u64 = 800_000_000;

/// A part of an Emacs frame.
#[derive(Debug, Clone, PartialEq, Eq)]
pub struct SkeletonRect {
    pub kind: String,
    pub label: String,
    pub rect: Rect,
    pub selected: bool,
}

/// The color that a part is drawn in.
#[derive(Debug, Clone, Copy, PartialEq, Eq, Structural)]
pub enum PartColor {
    Selected,
    Frame,
    Chrome,
    MenuBar,
    ToolBar,
    TabBar,
    Window,
    Header,
    ModeLine,
    Echo,
    Other,
}

/// The color for a kind of part; the selected one has its own.
pub open spec fn part_color(kind: Seq<char>, selected: bool) -> PartColor {
    if selected {
        PartColor::Selected
    } else if kind == "frame"@ {
        PartColor::Frame
    } else if kind == "chrome"@ {
        PartColor::Chrome
    } else if kind == "menu-bar"@ {
        PartColor::MenuBar
    } else if kind == "tool-bar"@ {
        PartColor::ToolBar
    } else if kind == "tab-bar"@ {
        PartColor::TabBar
    } else if kind == "window"@ {
        PartColor::Window
    } else if kind == "header-line"@ || kind == "tab-line"@ {
        PartColor::Header
    } else if kind == "mode-line"@ {
        PartColor::ModeLine
    } else if kind == "echo-area"@ || kind == "mini-buffer"@ {
        PartColor::Echo
    } else {
        PartColor::Other
    }
}

/// The color for a kind of part.
pub fn color_for(kind: &str, selected: bool) -> (r: PartColor)
    ensures
        r == part_color(kind@, selected),
{
    if selected {
        PartColor::Selected
    } else if str_eq(kind, "frame") {
        PartColor::Frame
    } else if str_eq(kind, "chrome") {
        PartColor::Chrome
    } else if str_eq(kind, "menu-bar") {
        PartColor::MenuBar
    } else if str_eq(kind, "tool-bar") {
        PartColor::ToolBar
    } else if str_eq(kind, "tab-bar") {
        PartColor::TabBar
    } else if str_eq(kind, "window") {
        PartColor::Window
    } else if str_eq(kind, "header-line") || str_eq(kind, "tab-line") {
        PartColor::Header
    } else if str_eq(kind, "mode-line") {
        PartColor::ModeLine
    } else if str_eq(kind, "echo-area") || str_eq(kind, "mini-buffer") {
        PartColor::Echo
    } else {
        PartColor::Other
    }
}

// ---------------------------------------------------------------------------
// Texts and places
// ---------------------------------------------------------------------------

/// The text of a part's label: its kind, its label where it has one, its place
/// and its size.
pub open spec fn label_text(kind: Seq<char>, label: Seq<char>, r: Rect) -> Seq<char> {
    kind + (if label.len() == 0 {
        seq![]
    } else {
        seq![' '] + label
    }) + seq![' ', '('] + signed_decimal(r.x as int) + seq![','] + signed_decimal(r.y as int)
        + seq![')', ' '] + signed_decimal(r.w as int) + seq!['x'] + signed_decimal(r.h as int)
}

/// The text of a part's label.
pub fn render_text(part: &SkeletonRect) -> (r: String)
    ensures
        r@ == label_text(part.kind@, part.label@, part.rect),
{
    let mut s = String::new();
    s.append(part.kind.as_str());
    if !part.label.as_str().is_empty() {
        s.push(' ');
        s.append(part.label.as_str());
    }
    s.push(' ');
    s.push('(');
    push_signed(&mut s, part.rect.x);
    s.push(',');
    push_signed(&mut s, part.rect.y);
    s.push(')');
    s.push(' ');
    push_signed(&mut s, part.rect.w);
    s.push('x');
    push_signed(&mut s, part.rect.h);
    assert(s@ =~= label_text(part.kind@, part.label@, part.rect));
    s
}

/// `outer` contains `inner`.
pub open spec fn encloses(outer: Rect, inner: Rect) -> bool {
    &&& outer.x <= inner.x
    &&& outer.y <= inner.y
    &&& outer.x + outer.w >= inner.x + inner.w
    &&& outer.y + outer.h >= inner.y + inner.h
}

/// How many of the first `n` parts contain `r`.
pub open spec fn depth(parts: Seq<SkeletonRect>, n: int, r: Rect) -> nat
    decreases n,
{
    if n <= 0 {
        0
    } else if encloses(parts[n - 1].rect, r) {
        depth(parts, n - 1, r) + 1
    } else {
        depth(parts, n - 1, r)
    }
}

/// A third of a length; a negative one has none.
pub open spec fn third(n: int) -> int {
    if n > 0 {
        n / 3
    } else {
        0
    }
}

/// How far in a part is drawn that stands inside `depth` others: a step for
/// each, up to a limit, and never so far that it vanishes.
pub open spec fn inset(depth: nat, r: Rect) -> int {
    min(min(2 * (depth as int), 8), min(third(r.w as int), third(r.h as int)))
}

/// A rectangle drawn further in on all sides, at least a pixel large.
pub open spec fn inset_rect(r: Rect, by: int) -> Rect {
    Rect {
        x: (r.x + by) as i32,
        y: (r.y + by) as i32,
        w: max(r.w - 2 * by, 1) as i32,
        h: max(r.h - 2 * by, 1) as i32,
    }
}

/// Where part `i` is drawn. Emacs sends containing parts first, so only the
/// parts before it count as around it.
pub open spec fn drawn_rect(parts: Seq<SkeletonRect>, i: int) -> Rect {
    let r = parts[i].rect;
    inset_rect(r, inset(depth(parts, i, r), r))
}

/// The parts' right and bottom edges are in range.
pub open spec fn edges_in_range(r: Rect) -> bool {
    r.x + r.w <= i32::MAX && r.y + r.h <= i32::MAX
}

fn contains_rect(outer: Rect, inner: Rect) -> (r: bool)
    ensures
        r == encloses(outer, inner),
{
    outer.x <= inner.x && outer.y <= inner.y && outer.x as i64 + outer.w as i64 >= inner.x as i64
        + inner.w as i64 && outer.y as i64 + outer.h as i64 >= inner.y as i64 + inner.h as i64
}

fn third_of(n: i32) -> (r: i32)
    ensures
        r == third(n as int),
{
    if n > 0 {
        n / 3
    } else {
        0
    }
}

/// A rectangle as deep in as the parts around it demand.
fn place_part(r: Rect, around: usize) -> (s: Rect)
    requires
        around == 0 || edges_in_range(r),
    ensures
        s == inset_rect(r, inset(around as nat, r)),
{
    let mut by: i32 = if around >= 4 {
        MAX_INSET
    } else {
        around as i32 * INSET_STEP
    };
    let w3: i32 = third_of(r.w);
    let h3: i32 = third_of(r.h);
    if w3 < by {
        by = w3;
    }
    if h3 < by {
        by = h3;
    }
    assert(by == inset(around as nat, r));
    Rect {
        x: r.x + by,
        y: r.y + by,
        w: max_i32(r.w - by * 2, 1),
        h: max_i32(r.h - by * 2, 1),
    }
}

// ---------------------------------------------------------------------------
// The overlay
// ---------------------------------------------------------------------------

/// What is kept for a part.
#[derive(Debug)]
pub struct Entry {
    pub draw_rect: Rect,
    /// The label that was asked for last.
    pub last_text: String,
    pub last_color: Option<PartColor>,
    /// Its size; empty as long as none has been rendered.
    pub label_size: Size,
    /// Where the panel shows it.
    pub panel_pos: Point,
    /// The part flashes until this time.
    pub flash_until: Option<u64>,
    /// How often the entry has changed.
    pub commit: u64,
}

/// What an entry holds, apart from where its part is drawn.
#[verifier::ext_equal]
pub struct Held {
    pub text: Seq<char>,
    pub color: Option<PartColor>,
    pub label_size: Size,
    pub panel_pos: Point,
    pub flash_until: Option<u64>,
    pub commit: u64,
}

impl Held {
    /// An entry without a label that does not flash.
    pub open spec fn blank() -> Held {
        Held {
            text: seq![],
            color: None,
            label_size: Size { w: 0, h: 0 },
            panel_pos: Point { x: 0, y: 0 },
            flash_until: None,
            commit: 0,
        }
    }

    /// The entry has a label to show.
    pub open spec fn labelled(self) -> bool {
        self.label_size.w > 0 && self.label_size.h > 0
    }

    /// The entry's label covers the pixel.
    pub open spec fn label_covers(self, p: Point) -> bool {
        &&& self.labelled()
        &&& self.panel_pos.x <= p.x < self.panel_pos.x + self.label_size.w
        &&& self.panel_pos.y <= p.y < self.panel_pos.y + self.label_size.h
    }

    /// The entry once it stands for this part.
    pub open spec fn showing(self, part: SkeletonRect) -> Held {
        Held {
            text: label_text(part.kind@, part.label@, part.rect),
            color: Some(part_color(part.kind@, part.selected)),
            commit: self.commit.wrapping_add(1),
            ..self
        }
    }

    /// The entry's label has to be rendered for this part.
    pub open spec fn is_stale(self, part: SkeletonRect) -> bool {
        self.text != self.showing(part).text || self.color != self.showing(part).color
    }

    /// The entry at time `now`: a flash may be over.
    pub open spec fn at(self, now: u64) -> Held {
        if self.flash_until matches Some(until) && now >= until {
            Held { flash_until: None, commit: self.commit.wrapping_add(1), ..self }
        } else {
            self
        }
    }
}

impl Entry {
    pub open spec fn held(&self) -> Held {
        Held {
            text: self.last_text@,
            color: self.last_color,
            label_size: self.label_size,
            panel_pos: self.panel_pos,
            flash_until: self.flash_until,
            commit: self.commit,
        }
    }

    pub fn has_label(&self) -> (r: bool)
        ensures
            r == self.held().labelled(),
    {
        self.label_size.w > 0 && self.label_size.h > 0
    }

    fn new() -> (r: Entry)
        ensures
            r.held() == Held::blank(),
            r.draw_rect == (Rect { x: 0, y: 0, w: 0, h: 0 }),
    {
        let r = Entry {
            draw_rect: Rect { x: 0, y: 0, w: 0, h: 0 },
            last_text: String::new(),
            last_color: None,
            label_size: Size { w: 0, h: 0 },
            panel_pos: Point { x: 0, y: 0 },
            flash_until: None,
            commit: 0,
        };
        assert(r.held() =~= Held::blank());
        r
    }

    fn label_contains(&self, p: Point) -> (r: bool)
        ensures
            r == self.held().label_covers(p),
    {
        self.has_label() && p.x >= self.panel_pos.x && (p.x as i64) < self.panel_pos.x as i64
            + self.label_size.w as i64 && p.y >= self.panel_pos.y && (p.y as i64)
            < self.panel_pos.y as i64 + self.label_size.h as i64
    }
}

/// What entry `i` holds; nothing where there is none.
pub open spec fn held_at(entries: Seq<Entry>, i: int) -> Held {
    if 0 <= i < entries.len() {
        entries[i].held()
    } else {
        Held::blank()
    }
}

/// The labels to render when these parts come in, in order.
pub open spec fn stale_labels(entries: Seq<Entry>, parts: Seq<SkeletonRect>, n: int) -> Seq<usize>
    decreases n,
{
    if n <= 0 {
        seq![]
    } else if held_at(entries, n - 1).is_stale(parts[n - 1]) {
        stale_labels(entries, parts, n - 1).push((n - 1) as usize)
    } else {
        stale_labels(entries, parts, n - 1)
    }
}

fn same_color(a: Option<PartColor>, b: PartColor) -> (r: bool)
    ensures
        r == (a == Some(b)),
{
    match a {
        Some(c) => c == b,
        None => false,
    }
}

#[derive(Debug)]
pub struct SkeletonOverlay {
    pub enabled: bool,
    pub parts: Vec<SkeletonRect>,
    /// One for each part.
    pub entries: Vec<Entry>,
}

impl SkeletonOverlay {
    pub open spec fn wf(&self) -> bool {
        self.entries@.len() == self.parts@.len()
    }

    pub fn new() -> (r: SkeletonOverlay)
        ensures
            r.wf(),
            !r.enabled,
            r.parts@ == Seq::<SkeletonRect>::empty(),
    {
        SkeletonOverlay { enabled: false, parts: Vec::new(), entries: Vec::new() }
    }

    pub fn clear(&mut self)
        ensures
            final(self).wf(),
            final(self).enabled == old(self).enabled,
            final(self).parts@ == Seq::<SkeletonRect>::empty(),
    {
        self.parts = Vec::new();
        self.entries = Vec::new();
    }

    pub fn enabled(&self) -> (r: bool)
        ensures
            r == self.enabled,
    {
        self.enabled
    }

    pub fn set_enabled(&mut self, enabled: bool)
        ensures
            *final(self) == (SkeletonOverlay { enabled, ..*old(self) }),
    {
        self.enabled = enabled;
    }

    /// As many entries as parts: those beyond are dropped, missing ones are
    /// blank.
    fn resize(&mut self, n: usize)
        ensures
            final(self).enabled == old(self).enabled,
            final(self).parts == old(self).parts,
            final(self).entries@.len() == n,
            forall|i: int|
                0 <= i < n ==> (#[trigger] final(self).entries@[i]).held() == held_at(
                    old(self).entries@,
                    i,
                ),
    {
        let ghost before = self.entries@;
        while self.entries.len() > n
            invariant
                self.enabled == old(self).enabled,
                self.parts == old(self).parts,
                self.entries@.len() <= before.len(),
                self.entries@ == before.take(self.entries@.len() as int),
                self.entries@.len() < before.len() ==> self.entries@.len() >= n,
            decreases self.entries@.len(),
        {
            self.entries.pop();
            assert(self.entries@ =~= before.take(self.entries@.len() as int));
        }
        while self.entries.len() < n
            invariant
                self.enabled == old(self).enabled,
                self.parts == old(self).parts,
                self.entries@.len() <= n,
                forall|i: int|
                    0 <= i < self.entries@.len() ==> (#[trigger] self.entries@[i]).held()
                        == held_at(before, i),
                self.entries@.len() < n ==> before.len() <= self.entries@.len(),
            decreases n - self.entries@.len(),
        {
            self.entries.push(Entry::new());
        }
    }

    /// Replaces the parts. Entries are reused by their place, so that labels
    /// that did not change need not be rendered again. Gives the entries whose
    /// label has to be rendered; [`Self::label_rendered`] takes its size.
    pub fn set_rects(&mut self, rects: Vec<SkeletonRect>) -> (r: Vec<usize>)
        requires
            forall|i: int|
                0 <= i < rects@.len() && depth(rects@, i, (#[trigger] rects@[i]).rect) > 0
                    ==> edges_in_range(rects@[i].rect),
        ensures
            final(self).wf(),
            final(self).enabled == old(self).enabled,
            final(self).parts == rects,
            r@ == stale_labels(old(self).entries@, rects@, rects@.len() as int),
            forall|i: int|
                0 <= i < rects@.len() ==> (#[trigger] final(self).entries@[i]).held() == held_at(
                    old(self).entries@,
                    i,
                ).showing(rects@[i]) && final(self).entries@[i].draw_rect == drawn_rect(rects@, i),
    {
        let ghost before = self.entries@;
        let ghost enabled = self.enabled;
        let n: usize = rects.len();
        self.resize(n);
        let mut stale: Vec<usize> = Vec::new();
        let mut i: usize = 0;
        while i < n
            invariant
                i <= n == rects@.len(),
                self.enabled == enabled,
                self.entries@.len() == n,
                forall|k: int|
                    0 <= k < rects@.len() && depth(rects@, k, (#[trigger] rects@[k]).rect) > 0
                        ==> edges_in_range(rects@[k].rect),
                stale@ == stale_labels(before, rects@, i as int),
                forall|k: int|
                    i <= k < n ==> (#[trigger] self.entries@[k]).held() == held_at(before, k),
                forall|k: int|
                    0 <= k < i ==> (#[trigger] self.entries@[k]).held() == held_at(
                        before,
                        k,
                    ).showing(rects@[k]) && self.entries@[k].draw_rect == drawn_rect(rects@, k),
            decreases n - i,
        {
            let part = &rects[i];
            let text = render_text(part);
            let color = color_for(part.kind.as_str(), part.selected);
            let entry = &self.entries[i];
            let fresh = str_eq(entry.last_text.as_str(), text.as_str()) && same_color(
                entry.last_color,
                color,
            );
            assert(self.entries@[i as int].held() == held_at(before, i as int));
            if !fresh {
                stale.push(i);
            }
            let mut around: usize = 0;
            let mut j: usize = 0;
            while j < i
                invariant
                    j <= i < n == rects@.len(),
                    around <= j,
                    part == rects@[i as int],
                    around == depth(rects@, j as int, rects@[i as int].rect),
                decreases i - j,
            {
                if contains_rect(rects[j].rect, part.rect) {
                    around += 1;
                }
                j += 1;
            }
            assert(around == 0 || edges_in_range(rects@[i as int].rect));
            let draw_rect = place_part(part.rect, around);
            let label_size = entry.label_size;
            let panel_pos = entry.panel_pos;
            let flash_until = entry.flash_until;
            let commit: u64 = entry.commit.wrapping_add(1);
            self.entries[i] = Entry {
                draw_rect,
                last_text: text,
                last_color: Some(color),
                label_size,
                panel_pos,
                flash_until,
                commit,
            };
            assert(self.entries@[i as int].held() =~= held_at(before, i as int).showing(
                rects@[i as int],
            ));
            i += 1;
        }
        self.parts = rects;
        stale
    }

    /// The label of entry `i` has been rendered.
    pub fn label_rendered(&mut self, i: usize, size: Size)
        requires
            i < old(self).entries@.len(),
        ensures
            final(self).enabled == old(self).enabled,
            final(self).parts == old(self).parts,
            final(self).entries@ == old(self).entries@.update(
                i as int,
                Entry { label_size: size, ..old(self).entries@[i as int] },
            ),
    {
        let entry = &mut self.entries[i];
        entry.label_size = size;
    }

    /// A click. The part whose label it hits starts to flash; none does while
    /// the overlay is off.
    pub fn click_at(&mut self, p: Point, now: u64) -> (r: Option<usize>)
        requires
            now <= u64::MAX - 800_000_000,
        ensures
            match r {
                Some(i) => {
                    &&& old(self).enabled
                    &&& i < old(self).entries@.len()
                    &&& old(self).entries@[i as int].held().label_covers(p)
                    &&& forall|j: int|
                        0 <= j < i ==> !(#[trigger] old(self).entries@[j]).held().label_covers(p)
                    &&& final(self).enabled == old(self).enabled
                    &&& final(self).parts == old(self).parts
                    &&& final(self).entries@ == old(self).entries@.update(
                        i as int,
                        Entry {
                            flash_until: Some((now + 800_000_000) as u64),
                            commit: old(self).entries@[i as int].commit.wrapping_add(1),
                            ..old(self).entries@[i as int]
                        },
                    )
                },
                None => {
                    &&& old(self).enabled ==> forall|j: int|
                        0 <= j < old(self).entries@.len() ==> !(#[trigger] old(
                            self,
                        ).entries@[j]).held().label_covers(p)
                    &&& *final(self) == *old(self)
                },
            },
    {
        if !self.enabled {
            return None;
        }
        let mut i: usize = 0;
        while i < self.entries.len()
            invariant
                i <= self.entries@.len(),
                *self == *old(self),
                self.enabled,
                now <= u64::MAX - 800_000_000,
                forall|j: int|
                    0 <= j < i ==> !(#[trigger] self.entries@[j]).held().label_covers(p),
            decreases self.entries@.len() - i,
        {
            if self.entries[i].label_contains(p) {
                let entry = &mut self.entries[i];
                entry.flash_until = Some(now + FLASH_DURATION);
                entry.commit = entry.commit.wrapping_add(1);
                return Some(i);
            }
            i += 1;
        }
        None
    }
}

// ---------------------------------------------------------------------------
// What is shown
// ---------------------------------------------------------------------------

/// The height of the first `n` labels, with a gap behind each.
pub open spec fn stacked(entries: Seq<Entry>, n: int) -> int
    decreases n,
{
    if n <= 0 {
        0
    } else if entries[n - 1].held().labelled() {
        stacked(entries, n - 1) + entries[n - 1].label_size.h + 1
    } else {
        stacked(entries, n - 1)
    }
}

/// The height of the panel: its labels, with gaps between them.
pub open spec fn panel_height(entries: Seq<Entry>) -> int {
    let all = stacked(entries, entries.len() as int);
    if all > 0 {
        all - 1
    } else {
        0
    }
}

/// Where the panel shows the label of entry `i`: the labels are stacked in the
/// order of the parts, from the top left margin of the screen on.
pub open spec fn panel_place(entries: Seq<Entry>, i: int) -> Point {
    Point { x: 12, y: (12 + stacked(entries, i)) as i32 }
}

proof fn lemma_stacked_grows(entries: Seq<Entry>, i: int, n: int)
    requires
        0 <= i <= n <= entries.len(),
    ensures
        0 <= stacked(entries, i) <= stacked(entries, n),
    decreases n,
{
    if n > 0 {
        if i < n {
            lemma_stacked_grows(entries, i, n - 1);
        } else {
            lemma_stacked_grows(entries, 0, n - 1);
        }
    }
}

/// The labels of the panel stand one below the other in the order of the parts,
/// a gap apart.
pub proof fn panel_labels_do_not_overlap(entries: Seq<Entry>, i: int, j: int)
    requires
        0 <= i < j < entries.len(),
        entries[i].held().labelled(),
        entries[j].held().labelled(),
        12 + stacked(entries, entries.len() as int) <= i32::MAX,
    ensures
        panel_place(entries, i).x == panel_place(entries, j).x,
        panel_place(entries, i).y + entries[i].label_size.h < panel_place(entries, j).y,
{
    lemma_stacked_grows(entries, i + 1, j);
    lemma_stacked_grows(entries, j, entries.len() as int);
    lemma_stacked_grows(entries, 0, i);
}

/// The panel keeps its margin to the left and to the top, and on a screen that
/// is tall enough also to the bottom.
pub proof fn panel_keeps_its_margin(entries: Seq<Entry>, i: int, output: Size)
    requires
        0 <= i < entries.len(),
        entries[i].held().labelled(),
        12 + stacked(entries, entries.len() as int) <= i32::MAX,
    ensures
        panel_place(entries, i).x == 12,
        panel_place(entries, i).y >= 12,
        panel_height(entries) + 24 <= output.h ==> panel_place(entries, i).y
            + entries[i].label_size.h <= output.h - 12,
{
    lemma_stacked_grows(entries, i + 1, entries.len() as int);
    lemma_stacked_grows(entries, 0, i);
}

/// The top left and the bottom right corner of a part on the screen, in
/// physical coordinates.
#[derive(Debug, Clone, Copy, PartialEq, Eq, Structural)]
pub struct Corners {
    pub tl: Point,
    pub br: Point,
}

impl Corners {
    /// Coordinates next to the corners are in range.
    pub open spec fn in_range(self) -> bool {
        &&& i32::MIN + 2 <= self.br.x
        &&& i32::MIN + 2 <= self.br.y
        &&& i32::MIN <= self.br.x - self.tl.x <= i32::MAX
        &&& i32::MIN <= self.br.y - self.tl.y <= i32::MAX
    }

    /// The area between the corners, at least a pixel large.
    pub open spec fn area(self) -> Rect {
        Rect {
            x: self.tl.x,
            y: self.tl.y,
            w: max(self.br.x - self.tl.x, 1) as i32,
            h: max(self.br.y - self.tl.y, 1) as i32,
        }
    }

    /// The top, bottom, left and right edge of that area, `t` pixels thick.
    pub open spec fn edges(self, t: int) -> Seq<Rect> {
        let a = self.area();
        seq![
            Rect { h: t as i32, ..a },
            Rect { y: (self.br.y - t) as i32, h: t as i32, ..a },
            Rect { w: t as i32, ..a },
            Rect { x: (self.br.x - t) as i32, w: t as i32, ..a },
        ]
    }

    fn to_area(self) -> (r: Rect)
        requires
            self.in_range(),
        ensures
            r == self.area(),
    {
        Rect {
            x: self.tl.x,
            y: self.tl.y,
            w: max_i32(self.br.x - self.tl.x, 1),
            h: max_i32(self.br.y - self.tl.y, 1),
        }
    }
}

/// A filled rectangle of the overlay.
#[derive(Debug, Clone, Copy, PartialEq, Eq, Structural)]
pub struct Solid {
    /// The part it belongs to.
    pub entry: usize,
    /// Which of the four edges it is; none where it fills the part.
    pub edge: Option<u8>,
    pub rect: Rect,
    pub color: PartColor,
}

/// A label of the overlay.
#[derive(Debug, Clone, Copy, PartialEq, Eq, Structural)]
pub struct PlacedLabel {
    pub entry: usize,
    pub at: Point,
}

#[derive(Debug)]
pub struct SkeletonScene {
    /// From the top: the borders, then the parts that flash.
    pub solids: Vec<Solid>,
    pub labels: Vec<PlacedLabel>,
}

/// The selected part has thicker borders.
pub open spec fn thickness(part: SkeletonRect) -> int {
    if part.selected {
        2
    } else {
        1
    }
}

/// The borders of the first `n` parts.
pub open spec fn borders(parts: Seq<SkeletonRect>, corners: Seq<Corners>, n: int) -> Seq<Solid>
    decreases n,
{
    if n <= 0 {
        seq![]
    } else {
        let i = n - 1;
        let color = part_color(parts[i].kind@, parts[i].selected);
        let edges = corners[i].edges(thickness(parts[i]));
        borders(parts, corners, i) + seq![
            Solid { entry: i as usize, edge: Some(0), rect: edges[0], color },
            Solid { entry: i as usize, edge: Some(1), rect: edges[1], color },
            Solid { entry: i as usize, edge: Some(2), rect: edges[2], color },
            Solid { entry: i as usize, edge: Some(3), rect: edges[3], color },
        ]
    }
}

/// The first `n` parts, as far as they flash.
pub open spec fn fills(
    parts: Seq<SkeletonRect>,
    entries: Seq<Entry>,
    corners: Seq<Corners>,
    n: int,
) -> Seq<Solid>
    decreases n,
{
    if n <= 0 {
        seq![]
    } else if entries[n - 1].flash_until is Some {
        fills(parts, entries, corners, n - 1).push(
            Solid {
                entry: (n - 1) as usize,
                edge: None,
                rect: corners[n - 1].area(),
                color: part_color(parts[n - 1].kind@, parts[n - 1].selected),
            },
        )
    } else {
        fills(parts, entries, corners, n - 1)
    }
}

/// The labels of the first `n` entries.
pub open spec fn labels(entries: Seq<Entry>, n: int) -> Seq<PlacedLabel>
    decreases n,
{
    if n <= 0 {
        seq![]
    } else if entries[n - 1].held().labelled() {
        labels(entries, n - 1).push(
            PlacedLabel { entry: (n - 1) as usize, at: entries[n - 1].panel_pos },
        )
    } else {
        labels(entries, n - 1)
    }
}

/// The entries at time `now`, their labels in their places.
pub open spec fn laid_out(before: Seq<Entry>, after: Seq<Entry>, now: u64) -> bool {
    &&& after.len() == before.len()
    &&& forall|i: int|
        0 <= i < before.len() ==> (#[trigger] after[i]).draw_rect == before[i].draw_rect
            && after[i].held() == if before[i].held().labelled() {
            Held { panel_pos: panel_place(before, i), ..before[i].held().at(now) }
        } else {
            before[i].held().at(now)
        }
}

impl SkeletonOverlay {
    /// Ends flashes that are over.
    fn expire_flashes(&mut self, now: u64)
        ensures
            final(self).enabled == old(self).enabled,
            final(self).parts == old(self).parts,
            final(self).entries@.len() == old(self).entries@.len(),
            forall|i: int|
                0 <= i < old(self).entries@.len() ==> (#[trigger] final(self).entries@[i]).held()
                    == old(self).entries@[i].held().at(now) && final(self).entries@[i].draw_rect
                    == old(self).entries@[i].draw_rect,
    {
        let ghost before = self.entries@;
        let mut i: usize = 0;
        while i < self.entries.len()
            invariant
                i <= self.entries@.len() == before.len(),
                self.enabled == old(self).enabled,
                self.parts == old(self).parts,
                forall|k: int| i <= k < before.len() ==> #[trigger] self.entries@[k] == before[k],
                forall|k: int|
                    0 <= k < i ==> (#[trigger] self.entries@[k]).held() == before[k].held().at(now)
                        && self.entries@[k].draw_rect == before[k].draw_rect,
            decreases before.len() - i,
        {
            let over = match self.entries[i].flash_until {
                Some(until) => now >= until,
                None => false,
            };
            if over {
                let entry = &mut self.entries[i];
                entry.flash_until = None;
                entry.commit = entry.commit.wrapping_add(1);
            }
            assert(self.entries@[i as int].held() =~= before[i as int].held().at(now));
            i += 1;
        }
    }
}

/// Panels for two lists of entries with the same labels are alike.
proof fn lemma_same_stack(a: Seq<Entry>, b: Seq<Entry>, n: int)
    requires
        0 <= n <= a.len() == b.len(),
        forall|i: int| 0 <= i < a.len() ==> (#[trigger] a[i]).label_size == b[i].label_size,
    ensures
        stacked(a, n) == stacked(b, n),
    decreases n,
{
    if n > 0 {
        lemma_same_stack(a, b, n - 1);
        assert(a[n - 1].label_size == b[n - 1].label_size);
    }
}

impl SkeletonOverlay {
    /// Places the labels.
    fn place_labels(&mut self)
        requires
            12 + stacked(old(self).entries@, old(self).entries@.len() as int) <= i32::MAX,
        ensures
            final(self).enabled == old(self).enabled,
            final(self).parts == old(self).parts,
            final(self).entries@.len() == old(self).entries@.len(),
            forall|i: int|
                0 <= i < old(self).entries@.len() ==> #[trigger] final(self).entries@[i] == if old(
                    self,
                ).entries@[i].held().labelled() {
                    Entry {
                        panel_pos: panel_place(old(self).entries@, i),
                        ..old(self).entries@[i]
                    }
                } else {
                    old(self).entries@[i]
                },
    {
        let ghost before = self.entries@;
        let ghost len = before.len() as int;
        let mut y: i32 = PANEL_MARGIN;
        let mut i: usize = 0;
        while i < self.entries.len()
            invariant
                i <= self.entries@.len() == before.len() == len,
                self.enabled == old(self).enabled,
                self.parts == old(self).parts,
                12 + stacked(before, len) <= i32::MAX,
                y == 12 + stacked(before, i as int),
                forall|k: int| i <= k < len ==> #[trigger] self.entries@[k] == before[k],
                forall|k: int|
                    0 <= k < i ==> #[trigger] self.entries@[k] == if before[k].held().labelled() {
                        Entry { panel_pos: panel_place(before, k), ..before[k] }
                    } else {
                        before[k]
                    },
            decreases len - i,
        {
            proof {
                lemma_stacked_grows(before, i + 1, len);
                lemma_stacked_grows(before, 0, i as int);
            }
            if self.entries[i].has_label() {
                let entry = &mut self.entries[i];
                entry.panel_pos = Point { x: PANEL_MARGIN, y };
                y = y + entry.label_size.h + PANEL_GAP;
            }
            i += 1;
        }
    }

    /// What to show at time `now`, given the corners of the parts'
    /// [`Entry::draw_rect`]s on the screen. Nothing while the overlay is off or
    /// without parts.
    pub fn build_elements(&mut self, now: u64, corners: &[Corners]) -> (r: SkeletonScene)
        requires
            old(self).wf(),
            corners@.len() == old(self).entries@.len(),
            forall|i: int| 0 <= i < corners@.len() ==> (#[trigger] corners@[i]).in_range(),
            12 + stacked(old(self).entries@, old(self).entries@.len() as int) <= i32::MAX,
        ensures
            final(self).wf(),
            final(self).enabled == old(self).enabled,
            final(self).parts == old(self).parts,
            if old(self).enabled {
                let n = old(self).parts@.len() as int;
                &&& laid_out(old(self).entries@, final(self).entries@, now)
                &&& r.solids@ == borders(old(self).parts@, corners@, n) + fills(
                    old(self).parts@,
                    final(self).entries@,
                    corners@,
                    n,
                )
                &&& r.labels@ == labels(final(self).entries@, n)
            } else {
                &&& *final(self) == *old(self)
                &&& r.solids@ == Seq::<Solid>::empty()
                &&& r.labels@ == Seq::<PlacedLabel>::empty()
            },
    {
        let mut solids: Vec<Solid> = Vec::new();
        let mut placed: Vec<PlacedLabel> = Vec::new();
        if !self.enabled {
            return SkeletonScene { solids, labels: placed };
        }
        let ghost before = self.entries@;
        let ghost parts = self.parts@;
        self.expire_flashes(now);
        let ghost expired = self.entries@;
        proof {
            assert forall|i: int| 0 <= i < before.len() implies (#[trigger] expired[i]).label_size
                == before[i].label_size by {
                assert(expired[i].held() == before[i].held().at(now));
                assert(expired[i].held().label_size == before[i].held().label_size);
            }
            lemma_same_stack(expired, before, before.len() as int);
        }
        self.place_labels();
        proof {
            assert forall|i: int| 0 <= i < before.len() implies (
            #[trigger] self.entries@[i]).draw_rect == before[i].draw_rect
                && self.entries@[i].held() == if before[i].held().labelled() {
                Held { panel_pos: panel_place(before, i), ..before[i].held().at(now) }
            } else {
                before[i].held().at(now)
            } by {
                assert(expired[i].held() == before[i].held().at(now));
                assert(expired[i].label_size == before[i].label_size);
                assert(expired[i].held().labelled() == before[i].held().labelled());
                lemma_same_stack(expired, before, i);
            }
        }
        let ghost entries = self.entries@;
        let n: usize = self.parts.len();
        let mut flashing: Vec<Solid> = Vec::new();
        let mut i: usize = 0;
        while i < n
            invariant
                i <= n == parts.len() == entries.len() == corners@.len(),
                self.parts@ == parts,
                self.entries@ == entries,
                forall|k: int| 0 <= k < corners@.len() ==> (#[trigger] corners@[k]).in_range(),
                solids@ == borders(parts, corners@, i as int),
                flashing@ == fills(parts, entries, corners@, i as int),
                placed@ == labels(entries, i as int),
            decreases n - i,
        {
            let part = &self.parts[i];
            let entry = &self.entries[i];
            let color = color_for(part.kind.as_str(), part.selected);
            let t: i32 = if part.selected {
                2
            } else {
                1
            };
            let c = corners[i];
            assert(corners@[i as int].in_range());
            let area = c.to_area();
            let ghost so_far = solids@;
            solids.push(
                Solid {
                    entry: i,
                    edge: Some(0),
                    rect: Rect { x: area.x, y: area.y, w: area.w, h: t },
                    color,
                },
            );
            solids.push(
                Solid {
                    entry: i,
                    edge: Some(1),
                    rect: Rect { x: area.x, y: c.br.y - t, w: area.w, h: t },
                    color,
                },
            );
            solids.push(
                Solid {
                    entry: i,
                    edge: Some(2),
                    rect: Rect { x: area.x, y: area.y, w: t, h: area.h },
                    color,
                },
            );
            solids.push(
                Solid {
                    entry: i,
                    edge: Some(3),
                    rect: Rect { x: c.br.x - t, y: area.y, w: t, h: area.h },
                    color,
                },
            );
            assert(solids@ =~= borders(parts, corners@, i + 1)) by {
                assert(borders(parts, corners@, i as int) == so_far);
            }
            if entry.flash_until.is_some() {
                flashing.push(Solid { entry: i, edge: None, rect: area, color });
            }
            if entry.has_label() {
                placed.push(PlacedLabel { entry: i, at: entry.panel_pos });
            }
            i += 1;
        }
        solids.append(&mut flashing);
        SkeletonScene { solids, labels: placed }
    }
}

/// Parts never vanish, and stay inside the part they are drawn for where it is
/// at least a pixel large.
pub proof fn parts_stay_visible(r: Rect, around: nat)
    requires
        edges_in_range(r),
    ensures
        ({
            let d = inset_rect(r, inset(around, r));
            d.w >= 1 && d.h >= 1 && (r.w >= 1 && r.h >= 1 ==> encloses(r, d))
        }),
{
}

/// A part that no other contains is drawn on its own bounds, where it is at
/// least a pixel large.
pub proof fn outermost_parts_are_exact(r: Rect)
    requires
        r.w >= 1,
        r.h >= 1,
    ensures
        inset_rect(r, inset(0, r)) == r,
{
}

/// The selected part has the color for it whatever it is, and no other part has.
/// The named kinds have a color each, but for the two kinds of lines above a
/// window and the two of the echo area, which share one; all else is alike.
pub proof fn colors_tell_the_kinds_apart(kind: &str, r: PartColor, s: PartColor)
    requires
        call_ensures(color_for, (kind, false), r),
        call_ensures(color_for, (kind, true), s),
    ensures
        s == PartColor::Selected,
        r != PartColor::Selected,
        (r == PartColor::Frame) == (kind@ == "frame"@),
        (r == PartColor::Chrome) == (kind@ == "chrome"@),
        (r == PartColor::MenuBar) == (kind@ == "menu-bar"@),
        (r == PartColor::ToolBar) == (kind@ == "tool-bar"@),
        (r == PartColor::TabBar) == (kind@ == "tab-bar"@),
        (r == PartColor::Window) == (kind@ == "window"@),
        (r == PartColor::Header) == (kind@ == "header-line"@ || kind@ == "tab-line"@),
        (r == PartColor::ModeLine) == (kind@ == "mode-line"@),
        (r == PartColor::Echo) == (kind@ == "echo-area"@ || kind@ == "mini-buffer"@),
{
    reveal_strlit("frame");
    reveal_strlit("chrome");
    reveal_strlit("menu-bar");
    reveal_strlit("tool-bar");
    reveal_strlit("tab-bar");
    reveal_strlit("window");
    reveal_strlit("header-line");
    reveal_strlit("tab-line");
    reveal_strlit("mode-line");
    reveal_strlit("echo-area");
    reveal_strlit("mini-buffer");
    assert("frame"@[0] == 'f');
    assert("chrome"@[0] == 'c');
    assert("menu-bar"@[1] == 'e' && "menu-bar"@.len() == 8);
    assert("tool-bar"@[0] == 't' && "tool-bar"@[1] == 'o');
    assert("tab-bar"@[0] == 't' && "tab-bar"@.len() == 7);
    assert("window"@[0] == 'w');
    assert("header-line"@[0] == 'h');
    assert("tab-line"@[0] == 't' && "tab-line"@[1] == 'a' && "tab-line"@.len() == 8);
    assert("mode-line"@[1] == 'o' && "mode-line"@.len() == 9);
    assert("echo-area"@[0] == 'e');
    assert("mini-buffer"@[1] == 'i' && "mini-buffer"@.len() == 11);
}

/// A label is the part's kind, its label behind a space where it has one, and its
/// place and size. `x`, `y`, `w` and `h` are these four numbers written out.
pub proof fn labels_describe_their_part(
    part: SkeletonRect,
    r: String,
    x: &mut String,
    y: &mut String,
    w: &mut String,
    h: &mut String,
)
    requires
        call_ensures(render_text, (&part,), r),
        old(x)@.len() == 0 && old(y)@.len() == 0 && old(w)@.len() == 0 && old(h)@.len() == 0,
        call_ensures(push_signed, (x, part.rect.x), ()),
        call_ensures(push_signed, (y, part.rect.y), ()),
        call_ensures(push_signed, (w, part.rect.w), ()),
        call_ensures(push_signed, (h, part.rect.h), ()),
    ensures
        part.label@.len() == 0 ==> r@ == part.kind@ + seq![' ', '('] + final(x)@ + seq![',']
            + final(y)@ + seq![')', ' '] + final(w)@ + seq!['x'] + final(h)@,
        part.label@.len() > 0 ==> r@ == part.kind@ + seq![' '] + part.label@ + seq![' ', '(']
            + final(x)@ + seq![','] + final(y)@ + seq![')', ' '] + final(w)@ + seq!['x']
            + final(h)@,
{
    assert(final(x)@ =~= signed_decimal(part.rect.x as int));
    assert(final(y)@ =~= signed_decimal(part.rect.y as int));
    assert(final(w)@ =~= signed_decimal(part.rect.w as int));
    assert(final(h)@ =~= signed_decimal(part.rect.h as int));
    if part.label@.len() == 0 {
        assert(r@ =~= part.kind@ + seq![' ', '('] + final(x)@ + seq![','] + final(y)@ + seq![
            ')',
            ' ',
        ] + final(w)@ + seq!['x'] + final(h)@);
    } else {
        assert(r@ =~= part.kind@ + seq![' '] + part.label@ + seq![' ', '('] + final(x)@ + seq![
            ',',
        ] + final(y)@ + seq![')', ' '] + final(w)@ + seq!['x'] + final(h)@);
    }
}

/// The parts before part `i` that contain it.
pub open spec fn parts_around(parts: Seq<SkeletonRect>, n: int, r: Rect) -> Set<int> {
    Set::new(
        |j: int|
            0 <= j < n && parts[j].rect.x <= r.x && parts[j].rect.y <= r.y && r.x + r.w
                <= parts[j].rect.x + parts[j].rect.w && r.y + r.h <= parts[j].rect.y
                + parts[j].rect.h,
    )
}

proof fn lemma_depth_counts(parts: Seq<SkeletonRect>, n: int, r: Rect)
    requires
        0 <= n <= parts.len(),
    ensures
        parts_around(parts, n, r).finite(),
        parts_around(parts, n, r).len() == depth(parts, n, r),
    decreases n,
{
    if n == 0 {
        assert(parts_around(parts, n, r) =~= Set::empty());
    } else {
        lemma_depth_counts(parts, n - 1, r);
        let before = parts_around(parts, n - 1, r);
        if encloses(parts[n - 1].rect, r) {
            assert(parts_around(parts, n, r) =~= before.insert(n - 1));
        } else {
            assert(parts_around(parts, n, r) =~= before);
        }
    }
}

/// A part is drawn two pixels further in on every side for each part sent before
/// it that contains it, but at most eight, and at most a third of its width and
/// of its height; it never becomes smaller than a pixel.
pub proof fn parts_are_drawn_inside_each_other(
    s: &mut SkeletonOverlay,
    rects: Vec<SkeletonRect>,
    stale: Vec<usize>,
    i: int,
    by: int,
)
    requires
        call_ensures(SkeletonOverlay::set_rects, (s, rects), stale),
        0 <= i < rects@.len(),
        parts_around(rects@, i, rects@[i].rect).len() > 0 ==> edges_in_range(rects@[i].rect),
        0 <= by,
        by <= 2 * parts_around(rects@, i, rects@[i].rect).len(),
        by <= 8,
        by == 0 || 3 * by <= rects@[i].rect.w && 3 * by <= rects@[i].rect.h,
        ({
            let more = by + 1;
            ||| more > 2 * parts_around(rects@, i, rects@[i].rect).len()
            ||| more > 8
            ||| 3 * more > rects@[i].rect.w
            ||| 3 * more > rects@[i].rect.h
        }),
    ensures
        ({
            let r = rects@[i].rect;
            let d = final(s).entries@[i].draw_rect;
            &&& d.x == r.x + by
            &&& d.y == r.y + by
            &&& d.w == if r.w - 2 * by >= 1 {
                r.w - 2 * by
            } else {
                1
            }
            &&& d.h == if r.h - 2 * by >= 1 {
                r.h - 2 * by
            } else {
                1
            }
        }),
        final(s).parts@ == rects@,
        final(s).enabled == old(s).enabled,
        final(s).entries@.len() == rects@.len(),
{
    let r = rects@[i].rect;
    lemma_depth_counts(rects@, i, r);
    assert(final(s).entries@[i].draw_rect == drawn_rect(rects@, i));
    assert(by == inset(depth(rects@, i, r), r));
}

proof fn lemma_stale(entries: Seq<Entry>, parts: Seq<SkeletonRect>, n: int)
    requires
        0 <= n <= parts.len() <= usize::MAX,
    ensures
        forall|k: int|
            0 <= k < stale_labels(entries, parts, n).len() ==> (#[trigger] stale_labels(
                entries,
                parts,
                n,
            )[k]) < n,
        forall|k: int, l: int|
            0 <= k < l < stale_labels(entries, parts, n).len() ==> (#[trigger] stale_labels(
                entries,
                parts,
                n,
            )[k]) < (#[trigger] stale_labels(entries, parts, n)[l]),
        forall|i: int|
            0 <= i < n ==> (#[trigger] stale_labels(entries, parts, n).contains(i as usize)
                == held_at(entries, i).is_stale(parts[i])),
    decreases n,
{
    if n > 0 {
        lemma_stale(entries, parts, n - 1);
        let before = stale_labels(entries, parts, n - 1);
        let after = stale_labels(entries, parts, n);
        assert forall|i: int| 0 <= i < n implies (#[trigger] after.contains(i as usize) == held_at(
            entries,
            i,
        ).is_stale(parts[i])) by {
            if i < n - 1 {
                assert(before.contains(i as usize) == held_at(entries, i).is_stale(parts[i]));
                if before.contains(i as usize) {
                    let k = choose|k: int| 0 <= k < before.len() && before[k] == i as usize;
                    assert(after[k] == i as usize);
                }
                if after.contains(i as usize) {
                    let k = choose|k: int| 0 <= k < after.len() && after[k] == i as usize;
                    assert(before[k] == i as usize);
                }
            } else {
                if held_at(entries, i).is_stale(parts[i]) {
                    assert(after[after.len() - 1] == i as usize);
                } else if after.contains(i as usize) {
                    let k = choose|k: int| 0 <= k < after.len() && after[k] == i as usize;
                    assert(before[k] < n - 1);
                }
            }
        }
    }
}

/// The labels to render are those whose text or color differs from what the entry
/// in their place had, and those of new entries; each once, in order. An entry
/// keeps its label, its place in the panel and its flash.
pub proof fn changed_labels_are_rendered(
    s: &mut SkeletonOverlay,
    rects: Vec<SkeletonRect>,
    stale: Vec<usize>,
    i: int,
    text: String,
    kind: &str,
    color: PartColor,
)
    requires
        call_ensures(SkeletonOverlay::set_rects, (s, rects), stale),
        0 <= i < rects@.len(),
        call_ensures(render_text, (&rects@[i],), text),
        kind@ == rects@[i].kind@,
        call_ensures(color_for, (kind, rects@[i].selected), color),
    ensures
        forall|k: int, l: int|
            0 <= k < l < stale@.len() ==> #[trigger] stale@[k] < #[trigger] stale@[l],
        stale@.contains(i as usize) == !(i < old(s).entries@.len() && old(
            s,
        ).entries@[i].last_text@ == text@ && old(s).entries@[i].last_color == Some(color)),
        final(s).entries@[i].last_text@ == text@,
        final(s).entries@[i].last_color == Some(color),
        i < old(s).entries@.len() ==> {
            &&& final(s).entries@[i].label_size == old(s).entries@[i].label_size
            &&& final(s).entries@[i].panel_pos == old(s).entries@[i].panel_pos
            &&& final(s).entries@[i].flash_until == old(s).entries@[i].flash_until
            &&& final(s).entries@[i].commit != old(s).entries@[i].commit
        },
        i >= old(s).entries@.len() ==> final(s).entries@[i].label_size == (Size { w: 0, h: 0 })
            && final(s).entries@[i].flash_until is None,
{
    assert(rects.len() == rects@.len());
    lemma_stale(old(s).entries@, rects@, rects@.len() as int);
    let held = held_at(old(s).entries@, i);
    assert(final(s).entries@[i].held() == held.showing(rects@[i]));
    assert(held.commit.wrapping_add(1) != held.commit);
    assert(stale@.contains(i as usize) == held.is_stale(rects@[i]));
    assert(final(s).entries@[i].held().text == final(s).entries@[i].last_text@);
    if i >= old(s).entries@.len() {
        assert(held.color is None);
    }
}

/// A fresh overlay is off and has no parts; cleared, it has none either. A label
/// that was rendered has its size, and no other entry changes.
pub proof fn labels_take_their_size(
    fresh: SkeletonOverlay,
    a: &mut SkeletonOverlay,
    b: &mut SkeletonOverlay,
    on: bool,
    enabled: bool,
    c: &mut SkeletonOverlay,
    i: usize,
    size: Size,
    shown: bool,
)
    requires
        call_ensures(SkeletonOverlay::new, (), fresh),
        call_ensures(SkeletonOverlay::clear, (a,), ()),
        call_ensures(SkeletonOverlay::set_enabled, (b, on), ()),
        call_ensures(SkeletonOverlay::enabled, (&*final(b),), enabled),
        call_ensures(SkeletonOverlay::label_rendered, (c, i, size), ()),
        i < old(c).entries@.len(),
        call_ensures(Entry::has_label, (&final(c).entries@[i as int],), shown),
    ensures
        !fresh.enabled && fresh.parts@.len() == 0 && fresh.entries@.len() == 0,
        final(a).parts@.len() == 0 && final(a).entries@.len() == 0 && final(a).enabled == old(
            a,
        ).enabled,
        enabled == on,
        final(b).parts == old(b).parts && final(b).entries == old(b).entries,
        final(c).entries@[i as int].label_size == size,
        shown == (size.w > 0 && size.h > 0),
        forall|k: int|
            0 <= k < old(c).entries@.len() && k != i ==> #[trigger] final(c).entries@[k] == old(
                c,
            ).entries@[k],
        final(c).parts == old(c).parts && final(c).enabled == old(c).enabled,
{
}

/// A click on a label makes its part flash for eight tenths of a second, and no
/// other part; of labels that lie on each other the first is hit. A click beside
/// the labels, or while the overlay is off, changes nothing.
pub proof fn clicks_make_parts_flash(
    s: &mut SkeletonOverlay,
    p: Point,
    now: u64,
    r: Option<usize>,
    j: int,
)
    requires
        call_ensures(SkeletonOverlay::click_at, (s, p, now), r),
        now <= u64::MAX - 800_000_000,
        0 <= j < old(s).entries@.len(),
    ensures
        ({
            let e = old(s).entries@[j];
            let hit = 0 <= p.x - e.panel_pos.x < e.label_size.w && 0 <= p.y - e.panel_pos.y
                < e.label_size.h;
            &&& hit && old(s).enabled ==> (r matches Some(i) && i <= j)
            &&& r == Some(j as usize) ==> hit && old(s).enabled && final(s).entries@[j].flash_until == Some((now + 800_000_000) as u64)
        }),
        final(s).entries@.len() == old(s).entries@.len(),
        r != Some(j as usize) ==> final(s).entries@[j] == old(s).entries@[j],
        final(s).entries@[j].panel_pos == old(s).entries@[j].panel_pos,
        final(s).entries@[j].draw_rect == old(s).entries@[j].draw_rect,
        final(s).entries@[j].label_size == old(s).entries@[j].label_size,
        final(s).parts == old(s).parts,
        final(s).enabled == old(s).enabled,
{
    let e = old(s).entries@[j];
    let hit = 0 <= p.x - e.panel_pos.x < e.label_size.w && 0 <= p.y - e.panel_pos.y
        < e.label_size.h;
    assert(e.held().label_covers(p) == hit);
    assert(old(s).entries.len() == old(s).entries@.len());
}

proof fn lemma_borders(parts: Seq<SkeletonRect>, corners: Seq<Corners>, n: int, i: int, e: int)
    requires
        0 <= i < n,
        0 <= e < 4,
    ensures
        borders(parts, corners, n).len() == 4 * n,
        borders(parts, corners, n)[4 * i + e] == (Solid {
            entry: i as usize,
            edge: Some(e as u8),
            rect: corners[i].edges(thickness(parts[i]))[e],
            color: part_color(parts[i].kind@, parts[i].selected),
        }),
    decreases n,
{
    lemma_borders_len(parts, corners, n - 1);
    if i < n - 1 {
        lemma_borders(parts, corners, n - 1, i, e);
    }
}

proof fn lemma_borders_len(parts: Seq<SkeletonRect>, corners: Seq<Corners>, n: int)
    requires
        0 <= n,
    ensures
        borders(parts, corners, n).len() == 4 * n,
    decreases n,
{
    if n > 0 {
        lemma_borders_len(parts, corners, n - 1);
    }
}

/// Every part has a border of four edges on its corners, a pixel thick, or two
/// where it is selected, in its color; the borders come first, part after part:
/// top, bottom, left, right.
pub proof fn parts_have_borders(
    s: &mut SkeletonOverlay,
    now: u64,
    corners: &[Corners],
    r: SkeletonScene,
    i: int,
    kind: &str,
    color: PartColor,
)
    requires
        call_ensures(SkeletonOverlay::build_elements, (s, now, corners), r),
        old(s).enabled,
        old(s).wf(),
        corners@.len() == old(s).entries@.len(),
        0 <= i < old(s).parts@.len(),
        corners@[i].in_range(),
        kind@ == old(s).parts@[i].kind@,
        call_ensures(color_for, (kind, old(s).parts@[i].selected), color),
    ensures
        r.solids@.len() >= 4 * old(s).parts@.len(),
        forall|e: int|
            0 <= e < 4 ==> (#[trigger] r.solids@[4 * i + e]).entry == i && r.solids@[4 * i
                + e].edge == Some(e as u8) && r.solids@[4 * i + e].color == color,
        ({
            let c = corners@[i];
            let t: int = if old(s).parts@[i].selected {
                2
            } else {
                1
            };
            let w = if c.br.x - c.tl.x >= 1 {
                c.br.x - c.tl.x
            } else {
                1
            };
            let h = if c.br.y - c.tl.y >= 1 {
                c.br.y - c.tl.y
            } else {
                1
            };
            let top = r.solids@[4 * i].rect;
            let bottom = r.solids@[4 * i + 1].rect;
            let left = r.solids@[4 * i + 2].rect;
            let right = r.solids@[4 * i + 3].rect;
            &&& top.x == c.tl.x && top.y == c.tl.y && top.w == w && top.h == t
            &&& bottom.x == c.tl.x && bottom.y + t == c.br.y && bottom.w == w && bottom.h == t
            &&& left.x == c.tl.x && left.y == c.tl.y && left.w == t && left.h == h
            &&& right.x + t == c.br.x && right.y == c.tl.y && right.w == t && right.h == h
        }),
{
    let n = old(s).parts@.len() as int;
    lemma_borders_len(old(s).parts@, corners@, n);
    assert forall|e: int| 0 <= e < 4 implies #[trigger] r.solids@[4 * i + e] == (Solid {
        entry: i as usize,
        edge: Some(e as u8),
        rect: corners@[i].edges(thickness(old(s).parts@[i]))[e],
        color: part_color(old(s).parts@[i].kind@, old(s).parts@[i].selected),
    }) by {
        lemma_borders(old(s).parts@, corners@, n, i, e);
    }
    assert(old(s).parts.len() == n);
    assert(r.solids@[4 * i + 0].edge == Some(0u8));
    assert(r.solids@[4 * i + 1].edge == Some(1u8));
    assert(r.solids@[4 * i + 2].edge == Some(2u8));
    assert(r.solids@[4 * i + 3].edge == Some(3u8));
}

proof fn lemma_fills(
    parts: Seq<SkeletonRect>,
    entries: Seq<Entry>,
    corners: Seq<Corners>,
    n: int,
)
    requires
        0 <= n <= entries.len() <= usize::MAX,
    ensures
        forall|k: int|
            0 <= k < fills(parts, entries, corners, n).len() ==> {
                let f = #[trigger] fills(parts, entries, corners, n)[k];
                &&& f.entry < n
                &&& entries[f.entry as int].flash_until is Some
                &&& f.edge is None
                &&& f.rect == corners[f.entry as int].area()
            },
        forall|i: int|
            0 <= i < n && (#[trigger] entries[i]).flash_until is Some ==> exists|k: int|
                0 <= k < fills(parts, entries, corners, n).len() && (#[trigger] fills(
                    parts,
                    entries,
                    corners,
                    n,
                )[k]).entry == i,
    decreases n,
{
    if n > 0 {
        lemma_fills(parts, entries, corners, n - 1);
        let before = fills(parts, entries, corners, n - 1);
        let after = fills(parts, entries, corners, n);
        assert forall|i: int|
            0 <= i < n && (#[trigger] entries[i]).flash_until is Some implies exists|k: int|
            0 <= k < after.len() && (#[trigger] after[k]).entry == i by {
            if i < n - 1 {
                let k = choose|k: int| 0 <= k < before.len() && (#[trigger] before[k]).entry == i;
                assert(after[k].entry == i);
            } else {
                assert(after[after.len() - 1].entry == i);
            }
        }
    }
}

/// Behind the borders the parts that flash are filled, and only those: one whose
/// time is over does not flash any more, and is counted as changed.
pub proof fn flashing_parts_are_filled(
    s: &mut SkeletonOverlay,
    now: u64,
    corners: &[Corners],
    r: SkeletonScene,
    i: int,
)
    requires
        call_ensures(SkeletonOverlay::build_elements, (s, now, corners), r),
        old(s).enabled,
        old(s).wf(),
        corners@.len() == old(s).entries@.len(),
        0 <= i < old(s).parts@.len(),
        corners@[i].in_range(),
    ensures
        ({
            let c = corners@[i];
            let flashes = old(s).entries@[i].flash_until matches Some(until) && now < until;
            let filled = exists|k: int|
                4 * old(s).parts@.len() <= k < r.solids@.len() && (
                #[trigger] r.solids@[k]).entry == i;
            &&& flashes == filled
            &&& flashes ==> final(s).entries@[i].flash_until == old(s).entries@[i].flash_until
            &&& !flashes ==> final(s).entries@[i].flash_until is None
            &&& (final(s).entries@[i].commit != old(s).entries@[i].commit) == (old(
                s,
            ).entries@[i].flash_until is Some && !flashes)
            &&& forall|k: int|
                4 * old(s).parts@.len() <= k < r.solids@.len() && (
                #[trigger] r.solids@[k]).entry == i ==> {
                    let f = r.solids@[k];
                    &&& f.edge is None
                    &&& f.rect.x == c.tl.x && f.rect.y == c.tl.y
                    &&& f.rect.w == c.br.x - c.tl.x || f.rect.w == 1 && c.br.x <= c.tl.x
                    &&& f.rect.h == c.br.y - c.tl.y || f.rect.h == 1 && c.br.y <= c.tl.y
                }
        }),
{
    let n = old(s).parts@.len() as int;
    let before = old(s).entries@;
    let after = final(s).entries@;
    lemma_borders_len(old(s).parts@, corners@, n);
    assert(final(s).entries.len() == n);
    lemma_fills(old(s).parts@, after, corners@, n);
    assert(after[i].held().flash_until == before[i].held().at(now).flash_until);
    assert(after[i].held().commit == before[i].held().at(now).commit);
    assert(before[i].commit.wrapping_add(1) != before[i].commit);
    let f = fills(old(s).parts@, after, corners@, n);
    if after[i].flash_until is Some {
        let k = choose|k: int| 0 <= k < f.len() && (#[trigger] f[k]).entry == i;
        assert(r.solids@[4 * n + k] == f[k]);
    }
    assert forall|k: int| 4 * n <= k < r.solids@.len() implies #[trigger] r.solids@[k] == f[k - 4
        * n] by {}
}

proof fn lemma_labels(before: Seq<Entry>, after: Seq<Entry>, now: u64, n: int)
    requires
        laid_out(before, after, now),
        12 + stacked(before, before.len() as int) <= i32::MAX,
        0 <= n <= before.len() <= usize::MAX,
    ensures
        forall|k: int|
            0 <= k < labels(after, n).len() ==> {
                let l = #[trigger] labels(after, n)[k];
                &&& l.entry < n
                &&& before[l.entry as int].held().labelled()
                &&& l.at.x == 12
                &&& l.at.y == 12 + stacked(before, l.entry as int)
            },
        forall|k: int, l: int|
            0 <= k < l < labels(after, n).len() ==> (#[trigger] labels(after, n)[k]).entry < (
            #[trigger] labels(after, n)[l]).entry,
        forall|i: int|
            0 <= i < n && (#[trigger] before[i]).held().labelled() ==> exists|k: int|
                0 <= k < labels(after, n).len() && (#[trigger] labels(after, n)[k]).entry == i,
        labels(after, n).len() == 0 ==> stacked(before, n) == 0,
        labels(after, n).len() > 0 ==> {
            &&& stacked(before, labels(after, n)[0].entry as int) == 0
            &&& stacked(before, n) == stacked(before, labels(after, n).last().entry as int)
                + before[labels(after, n).last().entry as int].label_size.h + 1
        },
        forall|k: int|
            0 < k < labels(after, n).len() ==> stacked(
                before,
                (#[trigger] labels(after, n)[k]).entry as int,
            ) == stacked(before, labels(after, n)[k - 1].entry as int) + before[labels(
                after,
                n,
            )[k - 1].entry as int].label_size.h + 1,
    decreases n,
{
    if n > 0 {
        lemma_labels(before, after, now, n - 1);
        let fewer = labels(after, n - 1);
        let more = labels(after, n);
        let i = n - 1;
        assert(after[i].draw_rect == before[i].draw_rect);
        assert(after[i].held().label_size == before[i].held().label_size);
        assert(after[i].held().labelled() == before[i].held().labelled());
        if before[i].held().labelled() {
            assert(after[i].held().panel_pos == panel_place(before, i));
            lemma_stacked_grows(before, i, before.len() as int);
            assert(more == fewer.push(PlacedLabel { entry: i as usize, at: after[i].panel_pos }));
            assert(more.last().entry == i);
        }
        assert forall|j: int|
            0 <= j < n && (#[trigger] before[j]).held().labelled() implies exists|k: int|
            0 <= k < more.len() && (#[trigger] more[k]).entry == j by {
            if j < n - 1 {
                let k = choose|k: int| 0 <= k < fewer.len() && (#[trigger] fewer[k]).entry == j;
                assert(more[k].entry == j);
            } else {
                assert(more[more.len() - 1].entry == j);
            }
        }
    }
}

/// The panel shows every label that has been rendered, in the order of the parts:
/// the first in the margin of twelve pixels, each one further a pixel below the
/// one before it. Clicks find the labels where they are shown.
pub proof fn labels_are_stacked(
    s: &mut SkeletonOverlay,
    now: u64,
    corners: &[Corners],
    r: SkeletonScene,
    k: int,
)
    requires
        call_ensures(SkeletonOverlay::build_elements, (s, now, corners), r),
        old(s).enabled,
        old(s).wf(),
        12 + stacked(old(s).entries@, old(s).entries@.len() as int) <= i32::MAX,
        0 <= k < r.labels@.len(),
    ensures
        r.labels@[k].entry < old(s).entries@.len(),
        ({
            let e = old(s).entries@[r.labels@[k].entry as int];
            e.label_size.w > 0 && e.label_size.h > 0
        }),
        final(s).entries@[r.labels@[k].entry as int].panel_pos == r.labels@[k].at,
        r.labels@[k].at.x == 12,
        k == 0 ==> r.labels@[k].at.y == 12,
        k > 0 ==> r.labels@[k].at.y == r.labels@[k - 1].at.y + old(s).entries@[r.labels@[k
            - 1].entry as int].label_size.h + 1,
        k > 0 ==> r.labels@[k - 1].entry < r.labels@[k].entry,
        forall|i: int|
            0 <= i < old(s).entries@.len() && (#[trigger] old(s).entries@[i]).label_size.w > 0
                && old(s).entries@[i].label_size.h > 0 ==> exists|l: int|
                0 <= l < r.labels@.len() && (#[trigger] r.labels@[l]).entry == i,
{
    let n = old(s).parts@.len() as int;
    assert(old(s).entries.len() == n);
    lemma_labels(old(s).entries@, final(s).entries@, now, n);
    lemma_placed(final(s).entries@, n);
    assert(r.labels@ == labels(final(s).entries@, n));
    assert forall|i: int|
        0 <= i < n && (#[trigger] old(s).entries@[i]).label_size.w > 0
            && old(s).entries@[i].label_size.h > 0 implies exists|l: int|
        0 <= l < r.labels@.len() && (#[trigger] r.labels@[l]).entry == i by {
        assert(old(s).entries@[i].held().labelled());
    }
}

proof fn lemma_placed(entries: Seq<Entry>, n: int)
    requires
        0 <= n <= entries.len() <= usize::MAX,
    ensures
        forall|k: int|
            0 <= k < labels(entries, n).len() ==> (#[trigger] labels(entries, n)[k]).entry < n
                && labels(entries, n)[k].at == entries[labels(
                entries,
                n,
            )[k].entry as int].panel_pos,
    decreases n,
{
    if n > 0 {
        lemma_placed(entries, n - 1);
    }
}

/// An overlay that is off shows nothing and lets no flash end.
pub proof fn hidden_skeletons_show_nothing(
    s: &mut SkeletonOverlay,
    now: u64,
    corners: &[Corners],
    r: SkeletonScene,
)
    requires
        call_ensures(SkeletonOverlay::build_elements, (s, now, corners), r),
        !old(s).enabled,
    ensures
        r.solids@.len() == 0,
        r.labels@.len() == 0,
        *final(s) == *old(s),
{
}

} // verus!
