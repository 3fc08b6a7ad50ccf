//! The bar along the top of the screen: a button for each workspace, and the
//! name of the active one. It shows from two workspaces on.
//!
//! The buttons' texts are rendered outside; here are kept which of them have
//! to be rendered and where they stand.

use crate::geometry::{half, half_of, max, max_i32, Point, Rect, Size};
use crate::text::{decimal, numbers_are_written_in_digits, push_decimal, str_eq, value_of};
use vstd::prelude::*;

verus! {

pub const BAR_HEIGHT: i32 = 28;

pub const PILL_H: i32 = 20;

/// Beside the text of the active button.
pub const PILL_PAD_H: i32 = 6;

/// Beside the text of another button.
pub const INACTIVE_PAD_H: i32 = 2;

pub const BUTTON_GAP: i32 = 6;

pub const BAR_MARGIN_LEFT: i32 = 6;

/// Around the title's text.
pub const TEXT_LABEL_PAD: i32 = 1;

/// A workspace to show.
#[derive(Debug, Clone, PartialEq, Eq)]
pub struct BarItem {
    pub id: u64,
    pub name: String,
}

/// A button of the bar.
#[derive(Debug)]
pub struct BarButton {
    pub workspace_id: u64,
    /// What was rendered last: a workspace, and whether it was active.
    pub shown: Option<(u64, bool)>,
    /// The size of its picture.
    pub buf_size: Size,
    /// Where a click hits it.
    pub hit_rect: Rect,
}

/// The size of a button's picture and where its text stands in it.
#[derive(Debug, Clone, Copy, PartialEq, Eq, Structural)]
pub struct PillMetrics {
    pub size: Size,
    pub text_at: Point,
}

/// A button's picture for a text of this size: the active one is a pill and
/// has more room beside the text.
pub fn pill_metrics(text: Size, active: bool) -> (r: PillMetrics)
    requires
        text.w <= i32::MAX - 12,
        i32::MIN + 21 <= text.h,
    ensures
        r.size.h == 20,
        r.size.w == max(
            text.w + if active {
                12
            } else {
                4int
            },
            1,
        ),
        r.text_at.x == if active {
            6
        } else {
            2int
        },
        r.text_at.y == half(20 - text.h),
{
    let pad: i32 = if active {
        PILL_PAD_H
    } else {
        INACTIVE_PAD_H
    };
    PillMetrics {
        size: Size { w: max_i32(text.w + pad * 2, 1), h: PILL_H },
        text_at: Point { x: pad, y: half_of(PILL_H - text.h) },
    }
}

/// The picture of a title with a text of this size.
pub fn title_size(text: Size) -> (r: Size)
    requires
        text.w <= i32::MAX - 2,
        text.h <= i32::MAX - 2,
    ensures
        r.w == max(text.w + 2, 1),
        r.h == max(text.h + 2, 1),
{
    Size {
        w: max_i32(text.w + TEXT_LABEL_PAD * 2, 1),
        h: max_i32(text.h + TEXT_LABEL_PAD * 2, 1),
    }
}

/// What a change of the workspaces makes necessary.
#[derive(Debug)]
pub struct BarUpdate {
    /// The buttons to render; their sizes go to
    /// [`WorkspaceBar::button_rendered`].
    pub buttons: Vec<usize>,
    /// The title has to be rendered; its size goes to
    /// [`WorkspaceBar::title_rendered`].
    pub title: bool,
    /// The bar appears or disappears.
    pub bar_changed: bool,
}

#[derive(Debug)]
pub struct WorkspaceBar {
    pub enabled: bool,
    pub buttons: Vec<BarButton>,
    pub title_size: Size,
    pub last_title: String,
}

/// A picture that the bar shows.
#[derive(Debug, Clone, Copy, PartialEq, Eq, Structural)]
pub enum BarPicture {
    Button(usize),
    Title,
}

/// A picture and twice the coordinates of its top left corner, which may lie
/// between two pixels.
#[derive(Debug, Clone, Copy, PartialEq, Eq, Structural)]
pub struct BarLabel {
    pub picture: BarPicture,
    pub x2: i64,
    pub y2: i64,
}

/// What the bar shows.
#[derive(Debug)]
pub struct BarScene {
    pub labels: Vec<BarLabel>,
    /// The ground and the line below it.
    pub solids: Vec<Rect>,
}

/// The pictures of the first `n` buttons: where they are hit, and in the middle
/// of the bar's height.
pub open spec fn button_labels(buttons: Seq<BarButton>, n: int) -> Seq<BarLabel> {
    Seq::new(
        n as nat,
        |i: int|
            BarLabel {
                picture: BarPicture::Button(i as usize),
                x2: (2 * buttons[i].hit_rect.x) as i64,
                y2: (28 - buttons[i].buf_size.h) as i64,
            },
    )
}

/// The title's picture, in the middle of the bar; one without a width is not
/// shown.
pub open spec fn title_labels(title: Size, output: Size) -> Seq<BarLabel> {
    if title.w > 0 {
        seq![
            BarLabel {
                picture: BarPicture::Title,
                x2: (output.w - title.w) as i64,
                y2: (28 - title.h) as i64,
            },
        ]
    } else {
        seq![]
    }
}

/// What button `i` shows before the update; nothing where there is none.
pub open spec fn shown_at(buttons: Seq<BarButton>, i: int) -> Option<(u64, bool)> {
    if 0 <= i < buttons.len() {
        buttons[i].shown
    } else {
        None
    }
}

/// The size of button `i` before the update.
pub open spec fn size_at(buttons: Seq<BarButton>, i: int) -> Size {
    if 0 <= i < buttons.len() {
        buttons[i].buf_size
    } else {
        Size { w: 0, h: 0 }
    }
}

/// The buttons among the first `n` that have to be rendered.
pub open spec fn stale_buttons(
    buttons: Seq<BarButton>,
    items: Seq<BarItem>,
    active_id: u64,
    n: int,
) -> Seq<usize>
    decreases n,
{
    if n <= 0 {
        seq![]
    } else if shown_at(buttons, n - 1) != Some(
        (items[n - 1].id, items[n - 1].id == active_id),
    ) {
        stale_buttons(buttons, items, active_id, n - 1).push((n - 1) as usize)
    } else {
        stale_buttons(buttons, items, active_id, n - 1)
    }
}

/// The name of the active workspace: of the last one with its identifier.
pub open spec fn active_name(items: Seq<BarItem>, active_id: u64) -> Seq<char>
    decreases items.len(),
{
    if items.len() == 0 {
        seq![]
    } else if items.last().id == active_id {
        items.last().name@
    } else {
        active_name(items.drop_last(), active_id)
    }
}

/// Where button `i` begins.
pub open spec fn button_x(buttons: Seq<BarButton>, i: int) -> int
    decreases i,
{
    if i <= 0 {
        6
    } else {
        button_x(buttons, i - 1) + buttons[i - 1].buf_size.w + 6
    }
}

/// The button is hit by a click at this pixel.
pub open spec fn button_hit(b: BarButton, p: Point) -> bool {
    &&& b.hit_rect.x <= p.x < b.hit_rect.x + b.hit_rect.w
    &&& b.hit_rect.y <= p.y < b.hit_rect.y + b.hit_rect.h
}

impl WorkspaceBar {
    pub fn new() -> (r: WorkspaceBar)
        ensures
            r.enabled,
            r.buttons@ == Seq::<BarButton>::empty(),
            r.title_size == (Size { w: 0, h: 0 }),
            r.last_title@ == Seq::<char>::empty(),
    {
        WorkspaceBar {
            enabled: true,
            buttons: Vec::new(),
            title_size: Size { w: 0, h: 0 },
            last_title: String::new(),
        }
    }

    pub fn set_enabled(&mut self, enabled: bool)
        ensures
            *final(self) == (WorkspaceBar { enabled, ..*old(self) }),
    {
        self.enabled = enabled;
    }

    /// Whether there are enough workspaces for a bar.
    pub fn visible(&self) -> (r: bool)
        ensures
            r == (self.buttons@.len() > 1),
    {
        self.buttons.len() > 1
    }

    pub fn button_count(&self) -> (r: usize)
        ensures
            r == self.buttons@.len(),
    {
        self.buttons.len()
    }

    /// The height that the bar takes up.
    pub fn height(&self) -> (r: i32)
        ensures
            r == if self.buttons@.len() > 1 {
                28
            } else {
                0int
            },
    {
        if self.visible() {
            BAR_HEIGHT
        } else {
            0
        }
    }

    /// The workspaces changed. Buttons are reused by their place. A button is
    /// rendered when its workspace or that it is active changes, the title
    /// when the active name does; an empty title needs no picture. The buttons
    /// are then to be placed.
    pub fn update(&mut self, workspaces: &[BarItem], active_id: u64) -> (r: BarUpdate)
        ensures
            final(self).enabled == old(self).enabled,
            final(self).buttons@.len() == workspaces@.len(),
            forall|i: int|
                0 <= i < workspaces@.len() ==> {
                    let b = #[trigger] final(self).buttons@[i];
                    &&& b.workspace_id == workspaces@[i].id
                    &&& b.shown == Some((workspaces@[i].id, workspaces@[i].id == active_id))
                    &&& b.buf_size == size_at(old(self).buttons@, i)
                    &&& b.hit_rect == (Rect { x: 0, y: 0, w: 0, h: 0 })
                },
            r.buttons@ == stale_buttons(
                old(self).buttons@,
                workspaces@,
                active_id,
                workspaces@.len() as int,
            ),
            r.bar_changed == ((old(self).buttons@.len() > 1) != (workspaces@.len() > 1)),
            final(self).last_title@ == active_name(workspaces@, active_id),
            r.title == (final(self).last_title@ != old(self).last_title@
                && final(self).last_title@.len() > 0),
            final(self).title_size == if final(self).last_title@ != old(self).last_title@
                && final(self).last_title@.len() == 0 {
                Size { w: 0, h: 0 }
            } else {
                old(self).title_size
            },
    {
        let ghost before = self.buttons@;
        let ghost enabled = self.enabled;
        let ghost old_title = self.last_title;
        let ghost old_size = self.title_size;
        let old_count: usize = self.buttons.len();
        let n: usize = workspaces.len();
        let mut buttons: Vec<BarButton> = Vec::new();
        let mut stale: Vec<usize> = Vec::new();
        let mut active_at: Option<usize> = None;
        let mut i: usize = 0;
        assert(workspaces@.take(0) =~= seq![]);
        while i < n
            invariant
                i <= n == workspaces@.len(),
                self.buttons@ == before,
                old_count == before.len(),
                self.enabled == enabled,
                self.last_title == old_title,
                self.title_size == old_size,
                buttons@.len() == i,
                stale@ == stale_buttons(before, workspaces@, active_id, i as int),
                match active_at {
                    Some(a) => a < i && active_name(workspaces@.take(i as int), active_id)
                        == workspaces@[a as int].name@,
                    None => active_name(workspaces@.take(i as int), active_id)
                        == Seq::<char>::empty(),
                },
                forall|k: int|
                    0 <= k < i ==> {
                        let b = #[trigger] buttons@[k];
                        &&& b.workspace_id == workspaces@[k].id
                        &&& b.shown == Some((workspaces@[k].id, workspaces@[k].id == active_id))
                        &&& b.buf_size == size_at(before, k)
                        &&& b.hit_rect == (Rect { x: 0, y: 0, w: 0, h: 0 })
                    },
            decreases n - i,
        {
            let id: u64 = workspaces[i].id;
            let is_active = id == active_id;
            assert(workspaces@.take(i + 1).drop_last() =~= workspaces@.take(i as int));
            if is_active {
                active_at = Some(i);
            }
            let (shown, buf_size) = if i < old_count {
                (self.buttons[i].shown, self.buttons[i].buf_size)
            } else {
                (None, Size { w: 0, h: 0 })
            };
            let fresh = match shown {
                Some((shown_id, shown_active)) => shown_id == id && shown_active == is_active,
                None => false,
            };
            if !fresh {
                stale.push(i);
            }
            buttons.push(
                BarButton {
                    workspace_id: id,
                    shown: Some((id, is_active)),
                    buf_size,
                    hit_rect: Rect { x: 0, y: 0, w: 0, h: 0 },
                },
            );
            i += 1;
        }
        assert(workspaces@.take(i as int) =~= workspaces@);
        self.buttons = buttons;
        let name = match active_at {
            Some(a) => workspaces[a].name.clone(),
            None => String::new(),
        };
        let mut title = false;
        if !str_eq(name.as_str(), self.last_title.as_str()) {
            if name.as_str().is_empty() {
                self.title_size = Size { w: 0, h: 0 };
            } else {
                title = true;
            }
        }
        self.last_title = name;
        BarUpdate { buttons: stale, title, bar_changed: (old_count > 1) != (n > 1) }
    }

    /// Button `i` has been rendered.
    pub fn button_rendered(&mut self, i: usize, size: Size)
        requires
            i < old(self).buttons@.len(),
        ensures
            final(self).buttons@ == old(self).buttons@.update(
                i as int,
                BarButton { buf_size: size, ..old(self).buttons@[i as int] },
            ),
            *final(self) == (WorkspaceBar { buttons: final(self).buttons, ..*old(self) }),
    {
        let button = &mut self.buttons[i];
        button.buf_size = size;
    }

    pub fn title_rendered(&mut self, size: Size)
        ensures
            *final(self) == (WorkspaceBar { title_size: size, ..*old(self) }),
    {
        self.title_size = size;
    }

    /// Places the buttons side by side, from the left.
    pub fn place_buttons(&mut self)
        requires
            forall|i: int|
                0 <= i < old(self).buttons@.len() ==> 0 <= (
                #[trigger] old(self).buttons@[i]).buf_size.w,
            button_x(old(self).buttons@, old(self).buttons@.len() as int) <= i32::MAX,
        ensures
            *final(self) == (WorkspaceBar { buttons: final(self).buttons, ..*old(self) }),
            final(self).buttons@.len() == old(self).buttons@.len(),
            forall|i: int|
                0 <= i < old(self).buttons@.len() ==> #[trigger] final(self).buttons@[i] == (
                BarButton {
                    hit_rect: Rect {
                        x: button_x(old(self).buttons@, i) as i32,
                        y: 4,
                        w: old(self).buttons@[i].buf_size.w,
                        h: 20,
                    },
                    ..old(self).buttons@[i]
                }),
    {
        let ghost before = self.buttons@;
        let ghost len = before.len() as int;
        let mut x: i32 = BAR_MARGIN_LEFT;
        let mut i: usize = 0;
        while i < self.buttons.len()
            invariant
                i <= self.buttons@.len() == before.len() == len,
                *self == (WorkspaceBar { buttons: self.buttons, ..*old(self) }),
                forall|k: int| 0 <= k < len ==> 0 <= (#[trigger] before[k]).buf_size.w,
                button_x(before, len) <= i32::MAX,
                0 <= x == button_x(before, i as int),
                forall|k: int| i <= k < len ==> #[trigger] self.buttons@[k] == before[k],
                forall|k: int|
                    0 <= k < i ==> #[trigger] self.buttons@[k] == (BarButton {
                        hit_rect: Rect {
                            x: button_x(before, k) as i32,
                            y: 4,
                            w: before[k].buf_size.w,
                            h: 20,
                        },
                        ..before[k]
                    }),
            decreases len - i,
        {
            let w: i32 = self.buttons[i].buf_size.w;
            proof {
                lemma_button_x_grows(before, i + 1, len);
            }
            let y: i32 = (BAR_HEIGHT - PILL_H) / 2;
            let button = &mut self.buttons[i];
            button.hit_rect = Rect { x, y, w, h: PILL_H };
            x = x + w + BUTTON_GAP;
            i += 1;
        }
    }

    /// The workspace whose button a click hits.
    pub fn click_at(&self, p: Point) -> (r: Option<u64>)
        ensures
            match r {
                Some(id) => self.buttons@.len() > 1 && exists|i: int|
                    0 <= i < self.buttons@.len() && button_hit(#[trigger] self.buttons@[i], p)
                        && self.buttons@[i].workspace_id == id && forall|j: int|
                        0 <= j < i ==> !button_hit(#[trigger] self.buttons@[j], p),
                None => self.buttons@.len() > 1 ==> forall|i: int|
                    0 <= i < self.buttons@.len() ==> !button_hit(#[trigger] self.buttons@[i], p),
            },
    {
        if !self.visible() {
            return None;
        }
        let mut i: usize = 0;
        while i < self.buttons.len()
            invariant
                i <= self.buttons@.len(),
                self.buttons@.len() > 1,
                forall|j: int| 0 <= j < i ==> !button_hit(#[trigger] self.buttons@[j], p),
            decreases self.buttons@.len() - i,
        {
            let r = self.buttons[i].hit_rect;
            if p.x >= r.x && (p.x as i64) < r.x as i64 + r.w as i64 && p.y >= r.y && (p.y as i64)
                < r.y as i64 + r.h as i64 {
                assert(button_hit(self.buttons@[i as int], p));
                return Some(self.buttons[i].workspace_id);
            }
            i += 1;
        }
        None
    }

    /// What the bar shows on a screen of this size; nothing where there are too
    /// few workspaces.
    pub fn build_elements(&self, output: Size) -> (r: BarScene)
        ensures
            r.labels@ == if self.buttons@.len() > 1 {
                button_labels(self.buttons@, self.buttons@.len() as int) + title_labels(
                    self.title_size,
                    output,
                )
            } else {
                seq![]
            },
            r.solids@ == if self.buttons@.len() > 1 {
                seq![
                    Rect { x: 0, y: 0, w: output.w, h: 28 },
                    Rect { x: 0, y: 27, w: output.w, h: 1 },
                ]
            } else {
                seq![]
            },
    {
        let mut labels: Vec<BarLabel> = Vec::new();
        let mut solids: Vec<Rect> = Vec::new();
        if !self.visible() {
            return BarScene { labels, solids };
        }
        solids.push(Rect { x: 0, y: 0, w: output.w, h: BAR_HEIGHT });
        solids.push(Rect { x: 0, y: BAR_HEIGHT - 1, w: output.w, h: 1 });
        let mut i: usize = 0;
        while i < self.buttons.len()
            invariant
                i <= self.buttons@.len(),
                labels@ =~= button_labels(self.buttons@, i as int),
            decreases self.buttons@.len() - i,
        {
            labels.push(
                BarLabel {
                    picture: BarPicture::Button(i),
                    x2: self.buttons[i].hit_rect.x as i64 * 2,
                    y2: BAR_HEIGHT as i64 - self.buttons[i].buf_size.h as i64,
                },
            );
            i += 1;
        }
        if self.title_size.w > 0 {
            labels.push(
                BarLabel {
                    picture: BarPicture::Title,
                    x2: output.w as i64 - self.title_size.w as i64,
                    y2: BAR_HEIGHT as i64 - self.title_size.h as i64,
                },
            );
        }
        assert(labels@ =~= button_labels(self.buttons@, self.buttons@.len() as int)
            + title_labels(self.title_size, output));
        BarScene { labels, solids }
    }
}

proof fn lemma_button_x_grows(buttons: Seq<BarButton>, i: int, n: int)
    requires
        0 <= i <= n <= buttons.len(),
        forall|k: int| 0 <= k < buttons.len() ==> 0 <= (#[trigger] buttons[k]).buf_size.w,
    ensures
        6 <= button_x(buttons, i) <= button_x(buttons, n),
    decreases n,
{
    if i < n {
        lemma_button_x_grows(buttons, i, n - 1);
        assert(0 <= buttons[n - 1].buf_size.w);
    } else if n > 0 {
        lemma_button_x_grows(buttons, n - 1, n - 1);
        assert(0 <= buttons[n - 1].buf_size.w);
    }
}

/// Buttons stand beside each other with a gap between them.
pub proof fn buttons_do_not_overlap(buttons: Seq<BarButton>, i: int, j: int)
    requires
        0 <= i < j < buttons.len(),
        forall|k: int| 0 <= k < buttons.len() ==> 0 <= (#[trigger] buttons[k]).buf_size.w,
    ensures
        button_x(buttons, i) + buttons[i].buf_size.w + 6 <= button_x(buttons, j),
{
    lemma_button_x_grows(buttons, i + 1, j);
}

/// The text of a button: the workspace's number.
pub fn button_text(id: u64) -> (r: String)
    ensures
        r@ == decimal(id as nat),
{
    let mut s = String::new();
    push_decimal(&mut s, id);
    assert(s@ =~= decimal(id as nat));
    s
}

/// The picture of a button holds its text with the same room on both sides and as
/// much above as below it; the active one has four pixels more on each side.
pub proof fn pills_surround_their_text(
    text: Size,
    on: PillMetrics,
    off: PillMetrics,
)
    requires
        call_ensures(pill_metrics, (text, true), on),
        call_ensures(pill_metrics, (text, false), off),
        0 <= text.w <= i32::MAX - 12,
        0 <= text.h <= 20,
    ensures
        on.size.h == 20 && off.size.h == 20,
        on.size.w - (on.text_at.x + text.w) == on.text_at.x,
        off.size.w - (off.text_at.x + text.w) == off.text_at.x,
        on.text_at.x == off.text_at.x + 4 && off.text_at.x == 2,
        0 <= (20 - (on.text_at.y + text.h)) - on.text_at.y <= 1,
        off.text_at.y == on.text_at.y,
{
}

/// The title's picture is a pixel larger than its text on every side.
pub proof fn titles_have_a_border(text: Size, r: Size)
    requires
        call_ensures(title_size, (text,), r),
        0 <= text.w,
        0 <= text.h,
    ensures
        r.w == text.w + 2,
        r.h == text.h + 2,
{
}

/// A bar shows from two workspaces on, and takes up its height exactly then.
pub proof fn bars_need_two_workspaces(
    fresh: WorkspaceBar,
    b: WorkspaceBar,
    shown: bool,
    n: usize,
    height: i32,
    scene: BarScene,
    output: Size,
)
    requires
        call_ensures(WorkspaceBar::new, (), fresh),
        call_ensures(WorkspaceBar::visible, (&b,), shown),
        call_ensures(WorkspaceBar::button_count, (&b,), n),
        call_ensures(WorkspaceBar::height, (&b,), height),
        call_ensures(WorkspaceBar::build_elements, (&b, output), scene),
    ensures
        fresh.buttons@.len() == 0 && fresh.enabled && fresh.last_title@.len() == 0,
        n == b.buttons@.len(),
        shown == (n >= 2),
        height == (if shown {
            28int
        } else {
            0
        }),
        (scene.solids@.len() > 0) == shown,
        !shown ==> scene.labels@.len() == 0,
{
}

proof fn lemma_stale_buttons(buttons: Seq<BarButton>, items: Seq<BarItem>, active_id: u64, n: int)
    requires
        0 <= n <= items.len() <= usize::MAX,
    ensures
        forall|k: int|
            0 <= k < stale_buttons(buttons, items, active_id, n).len() ==> (
            #[trigger] stale_buttons(buttons, items, active_id, n)[k]) < n,
        forall|k: int, l: int|
            0 <= k < l < stale_buttons(buttons, items, active_id, n).len() ==> (
            #[trigger] stale_buttons(buttons, items, active_id, n)[k]) < (#[trigger] stale_buttons(
                buttons,
                items,
                active_id,
                n,
            )[l]),
        forall|i: int|
            0 <= i < n ==> (#[trigger] stale_buttons(buttons, items, active_id, n).contains(
                i as usize,
            ) == (shown_at(buttons, i) != Some((items[i].id, items[i].id == active_id)))),
    decreases n,
{
    if n > 0 {
        lemma_stale_buttons(buttons, items, active_id, n - 1);
        let before = stale_buttons(buttons, items, active_id, n - 1);
        let after = stale_buttons(buttons, items, active_id, n);
        assert forall|i: int| 0 <= i < n implies (#[trigger] after.contains(i as usize) == (shown_at(
            buttons,
            i,
        ) != Some((items[i].id, items[i].id == active_id)))) by {
            if i < n - 1 {
                assert(before.contains(i as usize) == (shown_at(buttons, i) != Some(
                    (items[i].id, items[i].id == active_id),
                )));
                if before.contains(i as usize) {
                    let k = choose|k: int| 0 <= k < before.len() && before[k] == i as usize;
                    assert(after[k] == i as usize);
                }
                if after.contains(i as usize) {
                    let k = choose|k: int| 0 <= k < after.len() && after[k] == i as usize;
                    assert(before[k] == i as usize);
                }
            } else if shown_at(buttons, i) != Some((items[i].id, items[i].id == active_id)) {
                assert(after[after.len() - 1] == i as usize);
            } else if after.contains(i as usize) {
                let k = choose|k: int| 0 <= k < after.len() && after[k] == i as usize;
                assert(before[k] < n - 1);
            }
        }
    }
}

/// After an update there is a button for each workspace, in their order. A button
/// is rendered where its place shows another workspace, or one that became active
/// or ceased to be; each once, in order. Until then it keeps its size.
pub proof fn buttons_follow_the_workspaces(
    b: &mut WorkspaceBar,
    workspaces: &[BarItem],
    active_id: u64,
    r: BarUpdate,
    i: int,
)
    requires
        call_ensures(WorkspaceBar::update, (b, workspaces, active_id), r),
        0 <= i < workspaces@.len(),
    ensures
        final(b).buttons@.len() == workspaces@.len(),
        final(b).buttons@[i].workspace_id == workspaces@[i].id,
        final(b).buttons@[i].shown == Some((workspaces@[i].id, workspaces@[i].id == active_id)),
        r.buttons@.contains(i as usize) == !(i < old(b).buttons@.len() && (old(
            b,
        ).buttons@[i].shown matches Some((id, active)) && id == workspaces@[i].id && active == (
        workspaces@[i].id == active_id))),
        forall|k: int, l: int|
            0 <= k < l < r.buttons@.len() ==> #[trigger] r.buttons@[k] < #[trigger] r.buttons@[l],
        i < old(b).buttons@.len() ==> final(b).buttons@[i].buf_size == old(b).buttons@[i].buf_size,
        r.bar_changed == ((old(b).buttons@.len() >= 2) != (workspaces@.len() >= 2)),
        final(b).enabled == old(b).enabled,
{
    assert(workspaces.len() == workspaces@.len());
    lemma_stale_buttons(old(b).buttons@, workspaces@, active_id, workspaces@.len() as int);
    let b0 = final(b).buttons@[i];
    assert(b0.workspace_id == workspaces@[i].id);
}

proof fn lemma_active_name(items: Seq<BarItem>, active_id: u64, at: int)
    requires
        0 <= at < items.len(),
        items[at].id == active_id,
        forall|k: int| at < k < items.len() ==> (#[trigger] items[k]).id != active_id,
    ensures
        active_name(items, active_id) == items[at].name@,
    decreases items.len(),
{
    if at < items.len() - 1 {
        let rest = items.drop_last();
        assert forall|k: int| at < k < rest.len() implies (#[trigger] rest[k]).id != active_id by {
            assert(rest[k] == items[k]);
        }
        assert(items[items.len() - 1].id != active_id);
        lemma_active_name(rest, active_id, at);
    }
}

proof fn lemma_no_active_name(items: Seq<BarItem>, active_id: u64)
    requires
        forall|k: int| 0 <= k < items.len() ==> (#[trigger] items[k]).id != active_id,
    ensures
        active_name(items, active_id).len() == 0,
    decreases items.len(),
{
    if items.len() > 0 {
        let rest = items.drop_last();
        assert(items[items.len() - 1].id != active_id);
        assert forall|k: int| 0 <= k < rest.len() implies (#[trigger] rest[k]).id != active_id by {
            assert(rest[k] == items[k]);
        }
        lemma_no_active_name(rest, active_id);
    }
}

/// The title is the name of the active workspace, and none where there is no such
/// workspace. It is rendered where it changed and is not empty; an empty one
/// takes its picture away.
pub proof fn titles_name_the_active_workspace(
    b: &mut WorkspaceBar,
    workspaces: &[BarItem],
    active_id: u64,
    r: BarUpdate,
    at: int,
)
    requires
        call_ensures(WorkspaceBar::update, (b, workspaces, active_id), r),
        -1 <= at < workspaces@.len(),
        at >= 0 ==> workspaces@[at].id == active_id,
        forall|k: int| at < k < workspaces@.len() ==> (#[trigger] workspaces@[k]).id != active_id,
    ensures
        at >= 0 ==> final(b).last_title@ == workspaces@[at].name@,
        at < 0 ==> final(b).last_title@.len() == 0,
        r.title == (final(b).last_title@.len() > 0 && final(b).last_title@ != old(b).last_title@),
        final(b).last_title@ == old(b).last_title@ ==> final(b).title_size == old(b).title_size,
        final(b).last_title@ != old(b).last_title@ && final(b).last_title@.len() == 0 ==> final(b).title_size == (Size { w: 0, h: 0 }),
{
    if at >= 0 {
        lemma_active_name(workspaces@, active_id, at);
    } else {
        lemma_no_active_name(workspaces@, active_id);
    }
}

/// Rendered pictures have their size; nothing else of the bar changes. Turning it
/// on or off leaves its buttons.
pub proof fn pictures_take_their_size(
    a: &mut WorkspaceBar,
    i: usize,
    size: Size,
    b: &mut WorkspaceBar,
    title: Size,
    c: &mut WorkspaceBar,
    on: bool,
)
    requires
        call_ensures(WorkspaceBar::button_rendered, (a, i, size), ()),
        i < old(a).buttons@.len(),
        call_ensures(WorkspaceBar::title_rendered, (b, title), ()),
        call_ensures(WorkspaceBar::set_enabled, (c, on), ()),
    ensures
        final(a).buttons@.len() == old(a).buttons@.len(),
        final(a).buttons@[i as int].buf_size == size,
        final(a).buttons@[i as int].workspace_id == old(a).buttons@[i as int].workspace_id,
        final(a).buttons@[i as int].hit_rect == old(a).buttons@[i as int].hit_rect,
        forall|k: int|
            0 <= k < old(a).buttons@.len() && k != i ==> #[trigger] final(a).buttons@[k] == old(
                a,
            ).buttons@[k],
        final(a).title_size == old(a).title_size,
        final(b).title_size == title,
        final(b).buttons == old(b).buttons && final(b).last_title == old(b).last_title,
        final(c).enabled == on,
        final(c).buttons == old(c).buttons && final(c).title_size == old(c).title_size,
{
}

/// The first button is placed six pixels from the left, each one further six
/// pixels behind the one before it, as wide as its picture, four pixels below the
/// top. A click on one finds its workspace; one beside all of them finds none.
pub proof fn buttons_are_placed_and_hit(
    b: &mut WorkspaceBar,
    i: int,
    p: Point,
    r: Option<u64>,
)
    requires
        call_ensures(WorkspaceBar::place_buttons, (b,), ()),
        call_ensures(WorkspaceBar::click_at, (&*final(b), p), r),
        forall|k: int|
            0 <= k < old(b).buttons@.len() ==> 0 <= (#[trigger] old(b).buttons@[k]).buf_size.w,
        button_x(old(b).buttons@, old(b).buttons@.len() as int) <= i32::MAX,
        0 <= i < old(b).buttons@.len(),
    ensures
        ({
            let h = final(b).buttons@[i].hit_rect;
            &&& i == 0 ==> h.x == 6
            &&& i > 0 ==> h.x == final(b).buttons@[i - 1].hit_rect.x + final(b).buttons@[i
                - 1].hit_rect.w + 6
            &&& h.w == old(b).buttons@[i].buf_size.w
            &&& h.y == 4 && h.h == 20
            &&& old(b).buttons@.len() >= 2 && h.x <= p.x < h.x + h.w && 4 <= p.y < 24 ==> r
                == Some(old(b).buttons@[i].workspace_id)
        }),
        old(b).buttons@.len() < 2 || p.y < 4 || p.y >= 24 || p.x < 6 ==> r is None,
        final(b).buttons@[i].workspace_id == old(b).buttons@[i].workspace_id,
        final(b).buttons@[i].shown == old(b).buttons@[i].shown,
        final(b).buttons@.len() == old(b).buttons@.len(),
{
    let before = old(b).buttons@;
    let after = final(b).buttons@;
    let n = before.len() as int;
    assert forall|k: int| 0 <= k < n implies 6 <= button_x(before, k) && (#[trigger] after[k]).hit_rect.x
        == button_x(before, k) && after[k].hit_rect.w == before[k].buf_size.w
        && after[k].hit_rect.y == 4 && after[k].hit_rect.h == 20 by {
        lemma_button_x_grows(before, k, n);
    }
    assert(after[i].hit_rect.y == 4);
    if i > 0 {
        assert(after[i - 1].hit_rect.x == button_x(before, i - 1));
    }
    let h = after[i].hit_rect;
    if n >= 2 && h.x <= p.x < h.x + h.w && 4 <= p.y < 24 {
        assert(button_hit(after[i], p));
        assert forall|j: int| 0 <= j < n && j != i implies !button_hit(#[trigger] after[j], p) by {
            if j < i {
                buttons_do_not_overlap(before, j, i);
            } else {
                buttons_do_not_overlap(before, i, j);
            }
        }
    }
}

/// The bar's ground spans the screen's width and the bar's height, with a line
/// along its last row. Every button is shown where it is hit, and the title in
/// the middle of the screen; both in the middle of the bar's height.
pub proof fn bars_show_buttons_and_title(
    b: WorkspaceBar,
    output: Size,
    r: BarScene,
    i: int,
)
    requires
        call_ensures(WorkspaceBar::build_elements, (&b, output), r),
        b.buttons@.len() >= 2,
        0 <= i < b.buttons@.len(),
    ensures
        r.solids@.len() == 2,
        r.solids@[0] == (Rect { x: 0, y: 0, w: output.w, h: 28 }),
        r.solids@[1] == (Rect { x: 0, y: 27, w: output.w, h: 1 }),
        r.labels@.len() == b.buttons@.len() + (if b.title_size.w > 0 {
            1int
        } else {
            0
        }),
        r.labels@[i].picture == BarPicture::Button(i as usize),
        r.labels@[i].x2 == 2 * b.buttons@[i].hit_rect.x,
        2 * 28 - (r.labels@[i].y2 + 2 * b.buttons@[i].buf_size.h) == r.labels@[i].y2,
        b.title_size.w > 0 ==> {
            let t = r.labels@.last();
            &&& t.picture == BarPicture::Title
            &&& 2 * output.w - (t.x2 + 2 * b.title_size.w) == t.x2
            &&& 2 * 28 - (t.y2 + 2 * b.title_size.h) == t.y2
        },
{
}

/// A button shows its workspace's number in decimal digits.
pub proof fn buttons_show_their_number(id: u64, r: String, s: &mut String)
    requires
        call_ensures(button_text, (id,), r),
        old(s)@.len() == 0,
        call_ensures(push_decimal, (s, id), ()),
    ensures
        r@ == final(s)@,
        value_of(r@) == id,
{
    assert(final(s)@ =~= decimal(id as nat));
    numbers_are_written_in_digits(s, id);
}

} // verus!
