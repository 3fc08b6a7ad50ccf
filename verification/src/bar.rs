//! The workspace bar as a client of its own: the workspaces it is told of, when
//! it shows, and where its pills stand.
//!
//! Workspaces are announced in batches. A new one waits until its batch is
//! done; what is said of one goes to wherever it stands. The bar shows from
//! two workspaces on.

use crate::effects::glyphs::{can_shape, draw_dots, held_weights, lines_of, shows_dots, Ink};
use crate::effects::pixels::{
    byte_at, fill_image, fill_rect, holds_image, lemma_byte_at, painted, rectangle,
};
use crate::geometry::{half, half_of, Point, Rect};
use crate::text::{
    chars_of, decimal, numbers_are_written_in_digits, push_decimal, texts, value_of,
};
use cosmic_text::{Buffer, FontSystem, SwashCache};
use vstd::prelude::*;

verus! {

pub const BAR_HEIGHT: u32 = 28;

pub const PILL_H_PAD: i32 = 10;

pub const PILL_GAP: i32 = 6;

/// Beside the first pill.
pub const BAR_PAD: i32 = 8;

/// Beside the text of a pill.
pub const PILL_TEXT_PAD: i32 = 12;

pub const LINE_HEIGHT: i32 = 16;

// ---------------------------------------------------------------------------
// Identifiers and names
// ---------------------------------------------------------------------------

/// What stands behind the last `c`; everything where there is none.
pub open spec fn after_last(s: Seq<char>, c: char) -> Seq<char>
    decreases s.len(),
{
    if s.len() == 0 || s.last() == c {
        seq![]
    } else {
        after_last(s.drop_last(), c).push(s.last())
    }
}

/// All characters are decimal digits.
pub open spec fn all_digits(s: Seq<char>) -> bool {
    forall|i: int| 0 <= i < s.len() ==> '0' <= #[trigger] s[i] <= '9'
}

/// The number that decimal digits stand for.
pub open spec fn number(s: Seq<char>) -> nat
    decreases s.len(),
{
    if s.len() == 0 {
        0
    } else {
        10 * number(s.drop_last()) + (s.last() as int - 48) as nat
    }
}

/// A text as a 64-bit number: digits, perhaps behind a plus sign.
pub open spec fn parsed_u64(s: Seq<char>) -> Option<u64> {
    let digits = if s.len() > 0 && s[0] == '+' {
        s.skip(1)
    } else {
        s
    };
    if digits.len() > 0 && all_digits(digits) && number(digits) <= u64::MAX {
        Some(number(digits) as u64)
    } else {
        None
    }
}

/// The workspace that an announced identifier names: the number behind its last
/// hyphen. Others are workspace zero.
pub open spec fn wire_id(wire: Seq<char>) -> u64 {
    match parsed_u64(after_last(wire, '-')) {
        Some(n) => n,
        None => 0,
    }
}

/// A longer number is not smaller.
proof fn lemma_number_grows(s: Seq<char>, n: int)
    requires
        0 <= n <= s.len(),
        all_digits(s),
    ensures
        number(s.take(n)) <= number(s),
    decreases s.len(),
{
    if n < s.len() {
        let rest = s.drop_last();
        assert(all_digits(rest)) by {
            assert forall|i: int| 0 <= i < rest.len() implies '0' <= #[trigger] rest[i] <= '9' by {
                assert(rest[i] == s[i]);
            }
        }
        lemma_number_grows(rest, n);
        assert(rest.take(n) =~= s.take(n));
    } else {
        assert(s.take(n) =~= s);
    }
}

/// The number in `chars[from..]`.
fn parse_number(chars: &[char], from: usize) -> (r: Option<u64>)
    requires
        from <= chars@.len(),
    ensures
        r == ({
            let s = chars@.skip(from as int);
            if s.len() > 0 && all_digits(s) && number(s) <= u64::MAX {
                Some(number(s) as u64)
            } else {
                None
            }
        }),
{
    let ghost s = chars@.skip(from as int);
    if from == chars.len() {
        return None;
    }
    let mut n: u64 = 0;
    let mut too_large = false;
    let mut i: usize = from;
    assert(s.take(0) =~= seq![]);
    while i < chars.len()
        invariant
            from <= i <= chars@.len(),
            s == chars@.skip(from as int),
            all_digits(s.take(i - from)),
            if too_large {
                number(s.take(i - from)) > u64::MAX
            } else {
                n == number(s.take(i - from))
            },
        decreases chars@.len() - i,
    {
        let c = chars[i];
        let ghost k = i - from;
        assert(s[k] == c);
        assert(s.take(k + 1).drop_last() =~= s.take(k));
        if !('0' <= c && c <= '9') {
            assert(!all_digits(s));
            return None;
        }
        let d: u64 = (c as u32 - 48) as u64;
        assert(all_digits(s.take(k + 1))) by {
            assert forall|j: int| 0 <= j < k + 1 implies '0' <= #[trigger] s.take(k + 1)[j]
                <= '9' by {
                if j < k {
                    assert(s.take(k + 1)[j] == s.take(k)[j]);
                }
            }
        }
        if !too_large {
            if n > (u64::MAX - d) / 10 {
                too_large = true;
            } else {
                n = n * 10 + d;
            }
        }
        i += 1;
    }
    assert(s.take(i - from) =~= s);
    if too_large {
        None
    } else {
        Some(n)
    }
}

/// The workspace that an announced identifier names.
pub fn parse_id(wire: &str) -> (r: u64)
    ensures
        r == wire_id(wire@),
{
    let chars = chars_of(wire);
    let ghost w = wire@;
    let n: usize = chars.len();
    let mut from: usize = n;
    assert(w.take(n as int) =~= w);
    assert(after_last(w, '-') + w.skip(n as int) =~= after_last(w, '-'));
    while from > 0 && chars[from - 1] != '-'
        invariant
            from <= n == chars@.len(),
            chars@ == w,
            after_last(w, '-') == after_last(w.take(from as int), '-') + w.skip(from as int),
        decreases from,
    {
        proof {
            let here = w.take(from as int);
            assert(here.drop_last() =~= w.take(from - 1));
            assert(after_last(here.drop_last(), '-').push(here.last()) + w.skip(from as int)
                =~= after_last(w.take(from - 1), '-') + w.skip(from - 1));
        }
        from -= 1;
    }
    let ghost tail = w.skip(from as int);
    proof {
        assert(after_last(w.take(from as int), '-') =~= seq![]);
        assert(after_last(w, '-') =~= tail);
    }
    let signed = from < n && chars[from] == '+';
    let start: usize = if signed {
        from + 1
    } else {
        from
    };
    assert(signed ==> tail[0] == '+' && w.skip(start as int) =~= tail.skip(1));
    assert(!signed ==> w.skip(start as int) == tail);
    match parse_number(chars.as_slice(), start) {
        Some(id) => id,
        None => 0,
    }
}

/// A workspace of the bar.
#[derive(Debug)]
pub struct WorkspaceEntry {
    /// The object that the compositor speaks of it by.
    pub handle: u64,
    pub id: u64,
    pub name: String,
    pub active: bool,
    /// Where its pill was drawn.
    pub hit_rect: Rect,
}

/// What is shown on a pill: the workspace's name, or its number where it has
/// none.
pub open spec fn pill_text(e: WorkspaceEntry) -> Seq<char> {
    if e.name@.len() == 0 {
        "WS "@ + decimal(e.id as nat)
    } else {
        e.name@
    }
}

pub fn display_names(workspaces: &[WorkspaceEntry]) -> (r: Vec<String>)
    ensures
        texts(r@) == workspaces@.map_values(|e: WorkspaceEntry| pill_text(e)),
{
    let mut names: Vec<String> = Vec::new();
    let ghost to_text = |e: WorkspaceEntry| pill_text(e);
    let mut i: usize = 0;
    assert(texts(names@) =~= workspaces@.take(0).map_values(to_text));
    while i < workspaces.len()
        invariant
            i <= workspaces@.len(),
            to_text == (|e: WorkspaceEntry| pill_text(e)),
            texts(names@) == workspaces@.take(i as int).map_values(to_text),
        decreases workspaces@.len() - i,
    {
        let e = &workspaces[i];
        let name = if e.name.as_str().is_empty() {
            let mut s = "WS ".to_owned();
            push_decimal(&mut s, e.id);
            s
        } else {
            e.name.clone()
        };
        let ghost before = names@;
        names.push(name);
        assert(texts(names@) =~= texts(before).push(name@));
        assert(workspaces@.take(i + 1).map_values(to_text) =~= workspaces@.take(
            i as int,
        ).map_values(to_text).push(pill_text(*e)));
        i += 1;
    }
    assert(workspaces@.take(i as int) =~= workspaces@);
    names
}

// ---------------------------------------------------------------------------
// Order
// ---------------------------------------------------------------------------

/// Identifiers ascend.
pub open spec fn ascending(list: Seq<WorkspaceEntry>) -> bool {
    forall|i: int, j: int| 0 <= i < j < list.len() ==> (#[trigger] list[i]).id <= (
    #[trigger] list[j]).id
}

/// How many entries have an identifier of at most `id`.
pub open spec fn up_to(list: Seq<WorkspaceEntry>, id: u64) -> nat
    decreases list.len(),
{
    if list.len() == 0 {
        0
    } else if list.last().id <= id {
        up_to(list.drop_last(), id) + 1
    } else {
        up_to(list.drop_last(), id)
    }
}

/// The entries in the order of their identifiers; those with the same one keep
/// their order.
pub open spec fn by_id(list: Seq<WorkspaceEntry>) -> Seq<WorkspaceEntry>
    decreases list.len(),
{
    if list.len() == 0 {
        seq![]
    } else {
        let rest = by_id(list.drop_last());
        rest.insert(up_to(rest, list.last().id) as int, list.last())
    }
}

proof fn lemma_up_to(list: Seq<WorkspaceEntry>, id: u64, n: int)
    requires
        0 <= n <= list.len(),
        forall|i: int| 0 <= i < n ==> (#[trigger] list[i]).id <= id,
        forall|i: int| n <= i < list.len() ==> (#[trigger] list[i]).id > id,
    ensures
        up_to(list, id) == n,
    decreases list.len(),
{
    if list.len() > 0 {
        let m = if n == list.len() {
            n - 1
        } else {
            n
        };
        lemma_up_to(list.drop_last(), id, m);
    }
}

/// In an ascending list, the entries up to an identifier come first.
proof fn lemma_up_to_bounds(list: Seq<WorkspaceEntry>, id: u64)
    requires
        ascending(list),
    ensures
        up_to(list, id) <= list.len(),
        forall|i: int| 0 <= i < up_to(list, id) ==> (#[trigger] list[i]).id <= id,
        forall|i: int| up_to(list, id) <= i < list.len() ==> (#[trigger] list[i]).id > id,
    decreases list.len(),
{
    if list.len() > 0 {
        let rest = list.drop_last();
        assert(ascending(rest));
        lemma_up_to_bounds(rest, id);
        let n = up_to(rest, id) as int;
        assert forall|i: int| 0 <= i < rest.len() implies #[trigger] list[i] == rest[i] by {}
        if list.last().id <= id && n < rest.len() {
            assert(list[n].id <= list[list.len() - 1].id);
            assert(rest[n].id > id);
        }
    }
}

/// The bar lists its workspaces in ascending order.
pub proof fn bar_order_ascends(list: Seq<WorkspaceEntry>)
    ensures
        ascending(by_id(list)),
    decreases list.len(),
{
    if list.len() > 0 {
        let rest = by_id(list.drop_last());
        bar_order_ascends(list.drop_last());
        let e = list.last();
        lemma_up_to_bounds(rest, e.id);
        let at = up_to(rest, e.id) as int;
        let all = rest.insert(at, e);
        assert forall|i: int, j: int| 0 <= i < j < all.len() implies (#[trigger] all[i]).id <= (
        #[trigger] all[j]).id by {
            let p = if i < at {
                i
            } else {
                i - 1
            };
            let q = if j < at {
                j
            } else {
                j - 1
            };
            if i != at && j != at {
                assert(all[i] == rest[p] && all[j] == rest[q]);
            } else if i == at {
                assert(all[j] == rest[q]);
            } else {
                assert(all[i] == rest[p]);
            }
        }
    }
}

/// Ordering the workspaces loses none and adds none.
pub proof fn bar_order_keeps_all(list: Seq<WorkspaceEntry>)
    ensures
        by_id(list).to_multiset() == list.to_multiset(),
        by_id(list).len() == list.len(),
    decreases list.len(),
{
    broadcast use vstd::seq_lib::group_to_multiset_ensures;

    if list.len() > 0 {
        let rest = by_id(list.drop_last());
        bar_order_keeps_all(list.drop_last());
        bar_order_ascends(list.drop_last());
        let e = list.last();
        lemma_up_to_bounds(rest, e.id);
        let at = up_to(rest, e.id) as int;
        let all = rest.insert(at, e);
        assert(list =~= list.drop_last().push(e));
        assert(all.remove(at) =~= rest);
        assert(all.to_multiset() =~= rest.to_multiset().insert(e)) by {
            assert(all[at] == e);
            assert(all.remove(at).to_multiset() =~= all.to_multiset().remove(e));
            assert(all.to_multiset().count(e) > 0);
        }
    }
}

/// Adds an entry behind all with its identifier or a smaller one.
fn insert_by_id(list: &mut Vec<WorkspaceEntry>, e: WorkspaceEntry)
    requires
        ascending(old(list)@),
    ensures
        final(list)@ == old(list)@.insert(up_to(old(list)@, e.id) as int, e),
{
    let mut at: usize = list.len();
    while at > 0 && list[at - 1].id > e.id
        invariant
            at <= list@.len(),
            forall|i: int| at <= i < list@.len() ==> (#[trigger] list@[i]).id > e.id,
        decreases at,
    {
        at -= 1;
    }
    proof {
        assert forall|i: int| 0 <= i < at implies (#[trigger] list@[i]).id <= e.id by {
            if i < at - 1 {
                assert(list@[i].id <= list@[at - 1].id);
            }
        }
        lemma_up_to(list@, e.id, at as int);
    }
    list.insert(at, e);
}

// ---------------------------------------------------------------------------
// The bar
// ---------------------------------------------------------------------------

/// What to do with the bar's surface.
#[derive(Debug, Clone, Copy, PartialEq, Eq, Structural)]
pub enum BarAction {
    Nothing,
    Create,
    Destroy,
    Draw,
}

/// A size that the compositor gave the surface.
#[derive(Debug, Clone, Copy, PartialEq, Eq, Structural)]
pub struct SurfaceSize {
    pub w: u32,
    pub h: u32,
}

#[derive(Debug)]
pub struct BarState {
    /// Announced in the batch that is not done yet.
    pub pending_workspaces: Vec<WorkspaceEntry>,
    pub workspaces: Vec<WorkspaceEntry>,
    /// The bar has a surface.
    pub layer: bool,
    pub surface_size: Option<SurfaceSize>,
    /// The surface has got its first size.
    pub configured_once: bool,
    pub exit: bool,
}

/// What `count` workspaces mean for a surface that exists or not. A surface
/// without a size is drawn when it gets one.
pub open spec fn visibility(layer: bool, configured: bool, count: nat) -> BarAction {
    if count >= 2 {
        if !layer {
            BarAction::Create
        } else if configured {
            BarAction::Draw
        } else {
            BarAction::Nothing
        }
    } else if layer {
        BarAction::Destroy
    } else {
        BarAction::Nothing
    }
}

/// The place of the first entry with this handle.
pub open spec fn place_of(list: Seq<WorkspaceEntry>, handle: u64) -> Option<int>
    decreases list.len(),
{
    if list.len() == 0 {
        None
    } else if place_of(list.drop_last(), handle) is Some {
        place_of(list.drop_last(), handle)
    } else if list.last().handle == handle {
        Some(list.len() - 1)
    } else {
        None
    }
}

proof fn lemma_place_extends(list: Seq<WorkspaceEntry>, handle: u64, n: int)
    requires
        0 <= n <= list.len(),
        place_of(list.take(n), handle) is Some,
    ensures
        place_of(list, handle) == place_of(list.take(n), handle),
    decreases list.len(),
{
    if n < list.len() {
        assert(list.drop_last().take(n) =~= list.take(n));
        lemma_place_extends(list.drop_last(), handle, n);
    } else {
        assert(list.take(n) =~= list);
    }
}

fn find(list: &Vec<WorkspaceEntry>, handle: u64) -> (r: Option<usize>)
    ensures
        match r {
            Some(i) => place_of(list@, handle) == Some(i as int) && i < list@.len(),
            None => place_of(list@, handle) is None,
        },
{
    let mut i: usize = 0;
    assert(list@.take(0) =~= seq![]);
    while i < list.len()
        invariant
            i <= list@.len(),
            place_of(list@.take(i as int), handle) is None,
        decreases list@.len() - i,
    {
        assert(list@.take(i + 1).drop_last() =~= list@.take(i as int));
        if list[i].handle == handle {
            proof {
                lemma_place_extends(list@, handle, i + 1);
            }
            return Some(i);
        }
        i += 1;
    }
    assert(list@.take(i as int) =~= list@);
    None
}

/// What the compositor says of a workspace.
#[derive(Debug)]
pub enum HandleEvent {
    Id(String),
    Name(String),
    /// Whether it is the active one.
    Active(bool),
}

/// An entry after an event.
pub open spec fn told(e: WorkspaceEntry, event: HandleEvent) -> WorkspaceEntry {
    match event {
        HandleEvent::Id(id) => WorkspaceEntry { id: wire_id(id@), ..e },
        HandleEvent::Name(name) => WorkspaceEntry { name, ..e },
        HandleEvent::Active(active) => WorkspaceEntry { active, ..e },
    }
}

/// The entries without those of a handle.
pub open spec fn without(list: Seq<WorkspaceEntry>, handle: u64) -> Seq<WorkspaceEntry>
    decreases list.len(),
{
    if list.len() == 0 {
        seq![]
    } else if list.last().handle == handle {
        without(list.drop_last(), handle)
    } else {
        without(list.drop_last(), handle).push(list.last())
    }
}

fn remove_handle(list: &mut Vec<WorkspaceEntry>, handle: u64)
    ensures
        final(list)@ == without(old(list)@, handle),
{
    let ghost before = list@;
    let mut i: usize = list.len();
    assert(before.take(i as int) =~= before);
    assert(list@ =~= before.take(i as int));
    let ghost mut tail: Seq<WorkspaceEntry> = seq![];
    assert(without(before, handle) + tail =~= without(before, handle));
    while i > 0
        invariant
            i <= before.len(),
            list@ == before.take(i as int) + tail,
            without(before, handle) == without(before.take(i as int), handle) + tail,
        decreases i,
    {
        i -= 1;
        proof {
            assert(before.take(i + 1).drop_last() =~= before.take(i as int));
        }
        if list[i].handle == handle {
            let ghost here = list@;
            list.remove(i);
            assert(list@ =~= before.take(i as int) + tail);
        } else {
            proof {
                let e = before[i as int];
                let old_tail = tail;
                tail = seq![e] + old_tail;
                assert(before.take(i + 1) + old_tail =~= before.take(i as int) + tail);
                assert(without(before.take(i as int), handle).push(e) + old_tail =~= without(
                    before.take(i as int),
                    handle,
                ) + tail);
            }
        }
    }
    assert(list@ =~= tail);
    assert(without(before, handle) =~= tail);
}

impl BarState {
    pub fn new() -> (r: BarState)
        ensures
            r.pending_workspaces@ == Seq::<WorkspaceEntry>::empty(),
            r.workspaces@ == Seq::<WorkspaceEntry>::empty(),
            !r.layer,
            r.surface_size is None,
            !r.configured_once,
            !r.exit,
    {
        BarState {
            pending_workspaces: Vec::new(),
            workspaces: Vec::new(),
            layer: false,
            surface_size: None,
            configured_once: false,
            exit: false,
        }
    }

    pub fn exit_requested(&self) -> (r: bool)
        ensures
            r == self.exit,
    {
        self.exit
    }

    /// Decides whether a surface should exist. Creating or destroying one is
    /// noted at once; a new surface has no size yet.
    pub fn update_visibility(&mut self) -> (r: BarAction)
        ensures
            r == visibility(
                old(self).layer,
                old(self).configured_once,
                old(self).workspaces@.len(),
            ),
            *final(self) == match r {
                BarAction::Create => BarState {
                    layer: true,
                    configured_once: false,
                    ..*old(self)
                },
                BarAction::Destroy => BarState {
                    layer: false,
                    surface_size: None,
                    configured_once: false,
                    ..*old(self)
                },
                _ => *old(self),
            },
    {
        let should_show = self.workspaces.len() >= 2;
        if should_show {
            if !self.layer {
                self.layer = true;
                self.configured_once = false;
                BarAction::Create
            } else if self.configured_once {
                BarAction::Draw
            } else {
                BarAction::Nothing
            }
        } else if self.layer {
            self.layer = false;
            self.surface_size = None;
            self.configured_once = false;
            BarAction::Destroy
        } else {
            BarAction::Nothing
        }
    }

    /// A workspace was announced.
    pub fn workspace(&mut self, handle: u64)
        ensures
            *final(self) == (BarState {
                pending_workspaces: final(self).pending_workspaces,
                ..*old(self)
            }),
            final(self).pending_workspaces@.len() == old(self).pending_workspaces@.len() + 1,
            final(self).pending_workspaces@.drop_last() == old(self).pending_workspaces@,
            final(self).pending_workspaces@.last().handle == handle,
            final(self).pending_workspaces@.last().id == 0,
            final(self).pending_workspaces@.last().name@ == Seq::<char>::empty(),
            !final(self).pending_workspaces@.last().active,
            final(self).pending_workspaces@.last().hit_rect == (Rect { x: 0, y: 0, w: 0, h: 0 }),
    {
        let ghost before = self.pending_workspaces@;
        self.pending_workspaces.push(
            WorkspaceEntry {
                handle,
                id: 0,
                name: String::new(),
                active: false,
                hit_rect: Rect { x: 0, y: 0, w: 0, h: 0 },
            },
        );
        assert(self.pending_workspaces@.drop_last() =~= before);
    }

    /// The batch is done: what was announced joins the other workspaces.
    pub fn done(&mut self) -> (r: BarAction)
        ensures
            final(self).workspaces@ == by_id(
                old(self).workspaces@ + old(self).pending_workspaces@,
            ),
            final(self).pending_workspaces@ == Seq::<WorkspaceEntry>::empty(),
            r == visibility(
                old(self).layer,
                old(self).configured_once,
                old(self).workspaces@.len() + old(self).pending_workspaces@.len(),
            ),
            final(self).layer == (final(self).workspaces@.len() >= 2),
            final(self).configured_once == if r == BarAction::Create || r == BarAction::Destroy {
                false
            } else {
                old(self).configured_once
            },
            final(self).surface_size == if r == BarAction::Destroy {
                None
            } else {
                old(self).surface_size
            },
            final(self).exit == old(self).exit,
    {
        let ghost all = self.workspaces@ + self.pending_workspaces@;
        self.workspaces.append(&mut self.pending_workspaces);
        let mut sorted: Vec<WorkspaceEntry> = Vec::new();
        assert(all.take(0) =~= seq![]);
        assert(all.skip(0) =~= all);
        let ghost mut k: int = 0;
        while self.workspaces.len() > 0
            invariant
                0 <= k <= all.len(),
                self.workspaces@ == all.skip(k),
                sorted@ == by_id(all.take(k)),
                self.pending_workspaces@ == Seq::<WorkspaceEntry>::empty(),
                self.layer == old(self).layer,
                self.surface_size == old(self).surface_size,
                self.configured_once == old(self).configured_once,
                self.exit == old(self).exit,
            decreases self.workspaces@.len(),
        {
            let e = self.workspaces.remove(0);
            proof {
                assert(e == all[k]);
                assert(all.take(k + 1).drop_last() =~= all.take(k));
                bar_order_ascends(all.take(k));
            }
            insert_by_id(&mut sorted, e);
            proof {
                assert(self.workspaces@ =~= all.skip(k + 1));
                k = k + 1;
            }
        }
        assert(all.take(k) =~= all);
        proof {
            bar_order_keeps_all(all);
        }
        self.workspaces = sorted;
        self.update_visibility()
    }

    /// The compositor is done with the bar.
    pub fn finished(&mut self) -> (r: BarAction)
        ensures
            r == if old(self).layer {
                BarAction::Destroy
            } else {
                BarAction::Nothing
            },
            final(self).workspaces@ == Seq::<WorkspaceEntry>::empty(),
            final(self).pending_workspaces == old(self).pending_workspaces,
            !final(self).layer,
            final(self).exit,
            old(self).layer ==> final(self).surface_size is None && !final(self).configured_once,
            !old(self).layer ==> final(self).surface_size == old(self).surface_size
                && final(self).configured_once == old(self).configured_once,
    {
        self.workspaces = Vec::new();
        let action = self.update_visibility();
        self.exit = true;
        action
    }

    /// Something was said of a workspace, which is found among those of the
    /// current batch first. An unknown one is ignored.
    pub fn handle_event(&mut self, handle: u64, event: HandleEvent)
        ensures
            *final(self) == (BarState {
                pending_workspaces: final(self).pending_workspaces,
                workspaces: final(self).workspaces,
                ..*old(self)
            }),
            match (
                place_of(old(self).pending_workspaces@, handle),
                place_of(old(self).workspaces@, handle),
            ) {
                (Some(i), _) => {
                    &&& final(self).pending_workspaces@ == old(self).pending_workspaces@.update(
                        i,
                        told(old(self).pending_workspaces@[i], event),
                    )
                    &&& final(self).workspaces == old(self).workspaces
                },
                (None, Some(i)) => {
                    &&& final(self).pending_workspaces == old(self).pending_workspaces
                    &&& final(self).workspaces@ == old(self).workspaces@.update(
                        i,
                        told(old(self).workspaces@[i], event),
                    )
                },
                (None, None) => {
                    &&& final(self).pending_workspaces == old(self).pending_workspaces
                    &&& final(self).workspaces == old(self).workspaces
                },
            },
    {
        match find(&self.pending_workspaces, handle) {
            Some(i) => {
                tell(&mut self.pending_workspaces, i, event);
            },
            None => {
                match find(&self.workspaces, handle) {
                    Some(i) => {
                        tell(&mut self.workspaces, i, event);
                    },
                    None => {},
                }
            },
        }
    }

    /// A workspace is gone. Gives whether the bar knew it; then its object is
    /// to be destroyed.
    pub fn removed(&mut self, handle: u64) -> (r: bool)
        ensures
            r == (place_of(old(self).pending_workspaces@, handle) is Some || place_of(
                old(self).workspaces@,
                handle,
            ) is Some),
            *final(self) == (BarState {
                pending_workspaces: final(self).pending_workspaces,
                workspaces: final(self).workspaces,
                ..*old(self)
            }),
            final(self).pending_workspaces@ == without(old(self).pending_workspaces@, handle),
            final(self).workspaces@ == without(old(self).workspaces@, handle),
    {
        let known = find(&self.pending_workspaces, handle).is_some() || find(
            &self.workspaces,
            handle,
        ).is_some();
        remove_handle(&mut self.pending_workspaces, handle);
        remove_handle(&mut self.workspaces, handle);
        known
    }

    /// The compositor took the surface away. The next batch creates another.
    pub fn closed(&mut self)
        ensures
            *final(self) == (BarState {
                layer: false,
                surface_size: None,
                configured_once: false,
                ..*old(self)
            }),
    {
        self.layer = false;
        self.surface_size = None;
        self.configured_once = false;
    }

    /// The surface got a size; it is to be drawn. A side that is left open is
    /// one pixel wide, or as high as the bar.
    pub fn configure(&mut self, w: u32, h: u32)
        ensures
            *final(self) == (BarState {
                surface_size: Some(
                    SurfaceSize {
                        w: if w == 0 {
                            1
                        } else {
                            w
                        },
                        h: if h == 0 {
                            28
                        } else {
                            h
                        },
                    },
                ),
                configured_once: true,
                ..*old(self)
            }),
    {
        let w: u32 = if w == 0 {
            1
        } else {
            w
        };
        let h: u32 = if h == 0 {
            BAR_HEIGHT
        } else {
            h
        };
        self.surface_size = Some(SurfaceSize { w, h });
        self.configured_once = true;
    }
}

// ---------------------------------------------------------------------------
// Pills
// ---------------------------------------------------------------------------

/// Where pill `i` begins, given the widths of the pills' texts.
pub open spec fn pill_x(widths: Seq<i32>, i: int) -> int
    decreases i,
{
    if i <= 0 {
        8
    } else {
        pill_x(widths, i - 1) + widths[i - 1] + 30
    }
}

/// Pill `i` on a bar of height `h`.
pub open spec fn pill_rect(widths: Seq<i32>, i: int, h: int) -> Rect {
    Rect { x: pill_x(widths, i) as i32, y: 3, w: (widths[i] + 24) as i32, h: (h - 6) as i32 }
}

proof fn lemma_pill_x_grows(widths: Seq<i32>, i: int, n: int)
    requires
        0 <= i <= n <= widths.len(),
        forall|k: int| 0 <= k < widths.len() ==> 0 <= #[trigger] widths[k],
    ensures
        8 <= pill_x(widths, i) <= pill_x(widths, n),
    decreases n,
{
    if i < n {
        lemma_pill_x_grows(widths, i, n - 1);
        assert(0 <= widths[n - 1]);
    } else if n > 0 {
        lemma_pill_x_grows(widths, n - 1, n - 1);
        assert(0 <= widths[n - 1]);
    }
}

/// Pills stand beside each other with a gap between them.
pub proof fn pills_do_not_overlap(widths: Seq<i32>, i: int, j: int)
    requires
        0 <= i < j < widths.len(),
        forall|k: int| 0 <= k < widths.len() ==> 0 <= #[trigger] widths[k],
    ensures
        pill_x(widths, i) + (widths[i] + 24) + 6 <= pill_x(widths, j),
{
    lemma_pill_x_grows(widths, i + 1, j);
}

/// A click at this pixel is on the entry's pill, or a little above or below it.
pub open spec fn pill_hit(e: WorkspaceEntry, p: Point) -> bool {
    &&& e.hit_rect.x <= p.x < e.hit_rect.x + e.hit_rect.w
    &&& e.hit_rect.y - 10 <= p.y < e.hit_rect.y + e.hit_rect.h + 10
}

impl BarState {
    /// Places the pills for texts of these widths on a bar of this height.
    pub fn place_pills(&mut self, widths: &[i32], height: u32)
        requires
            widths@.len() == old(self).workspaces@.len(),
            forall|i: int| 0 <= i < widths@.len() ==> 0 <= #[trigger] widths@[i],
            pill_x(widths@, widths@.len() as int) <= i32::MAX,
            height <= i32::MAX,
        ensures
            *final(self) == (BarState { workspaces: final(self).workspaces, ..*old(self) }),
            final(self).workspaces@.len() == old(self).workspaces@.len(),
            forall|i: int|
                0 <= i < widths@.len() ==> #[trigger] final(self).workspaces@[i] == (
                WorkspaceEntry {
                    hit_rect: pill_rect(widths@, i, height as int),
                    ..old(self).workspaces@[i]
                }),
    {
        let ghost before = self.workspaces@;
        let ghost n = before.len() as int;
        let h: i32 = height as i32;
        let mut x: i32 = BAR_PAD;
        let mut i: usize = 0;
        while i < self.workspaces.len()
            invariant
                i <= self.workspaces@.len() == before.len() == widths@.len() == n,
                *self == (BarState { workspaces: self.workspaces, ..*old(self) }),
                forall|k: int| 0 <= k < widths@.len() ==> 0 <= #[trigger] widths@[k],
                pill_x(widths@, n) <= i32::MAX,
                h == height,
                0 <= x == pill_x(widths@, i as int),
                forall|k: int| i <= k < n ==> #[trigger] self.workspaces@[k] == before[k],
                forall|k: int|
                    0 <= k < i ==> #[trigger] self.workspaces@[k] == (WorkspaceEntry {
                        hit_rect: pill_rect(widths@, k, height as int),
                        ..before[k]
                    }),
            decreases n - i,
        {
            proof {
                lemma_pill_x_grows(widths@, i + 1, n);
                assert(0 <= widths@[i as int]);
            }
            let pw: i32 = widths[i] + PILL_TEXT_PAD * 2;
            let ph: i32 = h - 2 * PILL_H_PAD / 3;
            let py: i32 = (h - ph) / 2;
            let e = &mut self.workspaces[i];
            e.hit_rect = Rect { x, y: py, w: pw, h: ph };
            x = x + pw + PILL_GAP;
            i += 1;
        }
    }

    /// The workspace whose pill a click at this pixel hits, by its handle.
    pub fn hit_test(&self, p: Point) -> (r: Option<u64>)
        ensures
            match r {
                Some(handle) => exists|i: int|
                    0 <= i < self.workspaces@.len() && pill_hit(#[trigger] self.workspaces@[i], p)
                        && self.workspaces@[i].handle == handle && forall|j: int|
                        0 <= j < i ==> !pill_hit(#[trigger] self.workspaces@[j], p),
                None => forall|i: int|
                    0 <= i < self.workspaces@.len() ==> !pill_hit(
                        #[trigger] self.workspaces@[i],
                        p,
                    ),
            },
    {
        let mut i: usize = 0;
        while i < self.workspaces.len()
            invariant
                i <= self.workspaces@.len(),
                forall|j: int| 0 <= j < i ==> !pill_hit(#[trigger] self.workspaces@[j], p),
            decreases self.workspaces@.len() - i,
        {
            let r = self.workspaces[i].hit_rect;
            let px: i64 = p.x as i64;
            let py: i64 = p.y as i64;
            let in_x = px >= r.x as i64 && px < r.x as i64 + r.w as i64;
            let in_y = py >= r.y as i64 - PILL_H_PAD as i64 && py < r.y as i64 + r.h as i64
                + PILL_H_PAD as i64;
            if in_x && in_y {
                assert(pill_hit(self.workspaces@[i as int], p));
                return Some(self.workspaces[i].handle);
            }
            i += 1;
        }
        None
    }
}

/// The bar's background: blue, green, red, alpha.
pub open spec fn bar_background() -> Seq<u8> {
    seq![0x2eu8, 0x1eu8, 0x1eu8, 0xffu8]
}

/// A pill's background; that of the active workspace stands out.
pub open spec fn pill_background(active: bool) -> Seq<u8> {
    if active {
        seq![0xfau8, 0xb4u8, 0x89u8, 0xffu8]
    } else {
        seq![0x45u8, 0x34u8, 0x31u8, 0xffu8]
    }
}

/// Fills the bar with its background.
pub fn draw_background(canvas: &mut [u8])
    ensures
        final(canvas)@.len() == old(canvas)@.len(),
        forall|k: int|
            0 <= k < old(canvas)@.len() ==> #[trigger] final(canvas)@[k] == if 4 * (k / 4) + 4
                <= old(canvas)@.len() {
                bar_background()[k % 4]
            } else {
                old(canvas)@[k]
            },
{
    let color: [u8; 4] = [0x2e, 0x1e, 0x1e, 0xff];
    assert(color@ =~= bar_background());
    fill_image(canvas, &color);
}

/// Draws the pill of an entry, without its text.
pub fn draw_pill(canvas: &mut [u8], buf_w: i32, buf_h: i32, e: &WorkspaceEntry)
    requires
        holds_image(old(canvas)@, buf_w as int, buf_h as int),
    ensures
        painted(
            old(canvas)@,
            final(canvas)@,
            buf_w as int,
            buf_h as int,
            rectangle(
                e.hit_rect.x as int,
                e.hit_rect.y as int,
                e.hit_rect.w as int,
                e.hit_rect.h as int,
            ),
            pill_background(e.active),
        ),
{
    let color: [u8; 4] = if e.active {
        [0xfa, 0xb4, 0x89, 0xff]
    } else {
        [0x45, 0x34, 0x31, 0xff]
    };
    assert(color@ =~= pill_background(e.active));
    let r = e.hit_rect;
    fill_rect(canvas, buf_w, buf_h, r.x, r.y, r.w, r.h, color);
}

/// Where the text of an entry's pill begins: inside the pill, a line around its
/// middle.
pub open spec fn text_origin(e: WorkspaceEntry) -> (int, int) {
    (e.hit_rect.x + 12, e.hit_rect.y + half(e.hit_rect.h as int) - 11)
}

/// The color of a pill's text: dark on the pill of the active workspace, light
/// on the others.
pub fn pill_ink(active: bool) -> (r: Ink)
    ensures
        r == if active {
            (Ink { r: 0x1e, g: 0x1e, b: 0x2e, a: 0xff })
        } else {
            (Ink { r: 0xdc, g: 0xe0, b: 0xf5, a: 0xff })
        },
{
    if active {
        Ink { r: 0x1e, g: 0x1e, b: 0x2e, a: 0xff }
    } else {
        Ink { r: 0xdc, g: 0xe0, b: 0xf5, a: 0xff }
    }
}

/// Draws the text of an entry's pill. Which pixels it covers is up to the
/// fonts. Where the text cannot be shaped, the canvas stays as it is.
pub fn draw_text(
    canvas: &mut [u8],
    buf_w: i32,
    buf_h: i32,
    e: &WorkspaceEntry,
    ct_buffer: &mut Buffer,
    font_system: &mut FontSystem,
    swash_cache: &mut SwashCache,
)
    requires
        e.hit_rect.x <= i32::MAX - 12,
        i32::MIN + 16 <= e.hit_rect.y + half(e.hit_rect.h as int) <= i32::MAX - 5,
    ensures
        if can_shape(lines_of(*old(ct_buffer)), held_weights(*final(font_system))) {
            shows_dots(
                old(canvas)@,
                final(canvas)@,
                buf_w as int,
                buf_h as int,
                text_origin(*e).0,
                text_origin(*e).1,
                lines_of(*old(ct_buffer)),
                if e.active {
                    (Ink { r: 0x1e, g: 0x1e, b: 0x2e, a: 0xff })
                } else {
                    (Ink { r: 0xdc, g: 0xe0, b: 0xf5, a: 0xff })
                },
            )
        } else {
            final(canvas)@ == old(canvas)@
        },
        lines_of(*final(ct_buffer)) == lines_of(*old(ct_buffer)),
        held_weights(*old(font_system)).subset_of(held_weights(*final(font_system))),
{
    let ink = pill_ink(e.active);
    let r = e.hit_rect;
    let dx: i32 = r.x + PILL_TEXT_PAD;
    let dy: i32 = r.y + half_of(r.h) + LINE_HEIGHT / 3 - LINE_HEIGHT;
    draw_dots(canvas, buf_w, buf_h, dx, dy, ink, ct_buffer, font_system, swash_cache);
}

fn tell(list: &mut Vec<WorkspaceEntry>, i: usize, event: HandleEvent)
    requires
        i < old(list)@.len(),
    ensures
        final(list)@ == old(list)@.update(i as int, told(old(list)@[i as int], event)),
{
    let e = &mut list[i];
    match event {
        HandleEvent::Id(id) => {
            e.id = parse_id(id.as_str());
        },
        HandleEvent::Name(name) => {
            e.name = name;
        },
        HandleEvent::Active(active) => {
            e.active = active;
        },
    }
}

// ---------------------------------------------------------------------------
// Laws
// ---------------------------------------------------------------------------

proof fn lemma_after_last(s: Seq<char>, c: char, p: int)
    requires
        -1 <= p < s.len(),
        p >= 0 ==> s[p] == c,
        forall|i: int| p < i < s.len() ==> #[trigger] s[i] != c,
    ensures
        after_last(s, c) == s.skip(p + 1),
    decreases s.len(),
{
    if s.len() == 0 || p == s.len() - 1 {
        assert(s.skip(p + 1) =~= seq![]);
    } else {
        assert(s[s.len() - 1] != c);
        lemma_after_last(s.drop_last(), c, p);
        assert(s.skip(p + 1) =~= s.drop_last().skip(p + 1).push(s.last()));
    }
}

proof fn lemma_number_value(s: Seq<char>)
    requires
        all_digits(s),
    ensures
        number(s) == value_of(s),
    decreases s.len(),
{
    if s.len() > 0 {
        let rest = s.drop_last();
        assert forall|i: int| 0 <= i < rest.len() implies '0' <= #[trigger] rest[i] <= '9' by {
            assert(rest[i] == s[i]);
        }
        assert('0' <= s[s.len() - 1] <= '9');
        lemma_number_value(rest);
    }
}

/// An identifier names the workspace whose number stands behind its last hyphen,
/// whatever stands in front of it, perhaps behind a plus sign. Where no number
/// stands there, or one that is too large, it is workspace zero. `p` is the place
/// of the last hyphen, or one before the first character; `q` that of the sign,
/// where there is one.
pub proof fn identifiers_end_in_a_number(wire: &str, r: u64, p: int, q: int)
    requires
        call_ensures(parse_id, (wire,), r),
        -1 <= p < wire@.len(),
        p >= 0 ==> wire@[p] == '-',
        forall|i: int| p < i < wire@.len() ==> #[trigger] wire@[i] != '-',
        q == if p + 1 < wire@.len() && wire@[p + 1] == '+' {
            p + 1
        } else {
            p
        },
    ensures
        ({
            let digits = wire@.skip(q + 1);
            let is_number = digits.len() > 0 && (forall|i: int|
                0 <= i < digits.len() ==> '0' <= #[trigger] digits[i] <= '9') && value_of(digits)
                <= u64::MAX;
            r == if is_number {
                value_of(digits)
            } else {
                0
            }
        }),
{
    lemma_after_last(wire@, '-', p);
    let tail = wire@.skip(p + 1);
    let digits = wire@.skip(q + 1);
    if q > p {
        assert(tail[0] == '+');
        assert(tail.skip(1) =~= digits);
    } else if tail.len() > 0 {
        assert(tail[0] == wire@[p + 1]);
    }
    if all_digits(digits) {
        lemma_number_value(digits);
    }
}

/// A number written behind a hyphen is read back.
pub proof fn written_identifiers_are_read_back(
    prefix: Seq<char>,
    id: u64,
    digits: &mut String,
    wire: &str,
    r: u64,
)
    requires
        old(digits)@.len() == 0,
        call_ensures(push_decimal, (digits, id), ()),
        wire@ == prefix + seq!['-'] + final(digits)@,
        call_ensures(parse_id, (wire,), r),
    ensures
        r == id,
{
    numbers_are_written_in_digits(digits, id);
    let written = final(digits)@;
    assert(written.skip(0) =~= written);
    let p = prefix.len() as int;
    assert(wire@[p] == '-');
    assert forall|i: int| p < i < wire@.len() implies #[trigger] wire@[i] != '-' by {
        assert(wire@[i] == written[i - p - 1]);
    }
    assert(wire@.skip(p + 1) =~= written);
    assert(wire@[p + 1] == written[0]);
    identifiers_end_in_a_number(wire, r, p, p);
}

/// A workspace with a name is shown by it, another by its number. `n` is that
/// number written out.
pub proof fn unnamed_workspaces_show_their_number(
    workspaces: &[WorkspaceEntry],
    r: Vec<String>,
    i: int,
    n: &mut String,
)
    requires
        call_ensures(display_names, (workspaces,), r),
        0 <= i < workspaces@.len(),
        old(n)@.len() == 0,
        call_ensures(push_decimal, (n, workspaces@[i].id), ()),
    ensures
        r@.len() == workspaces@.len(),
        workspaces@[i].name@.len() > 0 ==> r@[i]@ == workspaces@[i].name@,
        workspaces@[i].name@.len() == 0 ==> r@[i]@ == seq!['W', 'S', ' '] + final(n)@,
{
    assert(final(n)@ =~= decimal(workspaces@[i].id as nat));
    assert(texts(r@)[i] == pill_text(workspaces@[i]));
    assert(texts(r@).len() == workspaces@.len());
    reveal_strlit("WS ");
    assert("WS "@ =~= seq!['W', 'S', ' ']);
}

/// The entries with this identifier keep their order in the bar.
proof fn lemma_order_is_stable(list: Seq<WorkspaceEntry>, id: u64)
    ensures
        by_id(list).filter(|e: WorkspaceEntry| e.id == id) == list.filter(
            |e: WorkspaceEntry| e.id == id,
        ),
    decreases list.len(),
{
    let of_id = |e: WorkspaceEntry| e.id == id;
    reveal(Seq::filter);
    if list.len() > 0 {
        let fewer = list.drop_last();
        let rest = by_id(fewer);
        let e = list.last();
        lemma_order_is_stable(fewer, id);
        bar_order_ascends(fewer);
        lemma_up_to_bounds(rest, e.id);
        let at = up_to(rest, e.id) as int;
        let front = rest.take(at);
        let back = rest.skip(at);
        let all = rest.insert(at, e);
        assert(all =~= front.push(e) + back);
        assert(rest =~= front + back);
        Seq::filter_distributes_over_add(front.push(e), back, of_id);
        Seq::filter_distributes_over_add(front, back, of_id);
        assert(front.push(e).drop_last() =~= front);
        if e.id == id {
            assert forall|k: int| 0 <= k < back.len() implies !of_id(#[trigger] back[k]) by {
                assert(back[k] == rest[at + k]);
            }
            lemma_filter_none(back, of_id);
            assert(all.filter(of_id) =~= rest.filter(of_id).push(e));
        } else {
            assert(all.filter(of_id) =~= rest.filter(of_id));
        }
    }
}

proof fn lemma_filter_none(list: Seq<WorkspaceEntry>, pred: spec_fn(WorkspaceEntry) -> bool)
    requires
        forall|k: int| 0 <= k < list.len() ==> !pred(#[trigger] list[k]),
    ensures
        list.filter(pred) == Seq::<WorkspaceEntry>::empty(),
    decreases list.len(),
{
    reveal(Seq::filter);
    if list.len() > 0 {
        let rest = list.drop_last();
        assert forall|k: int| 0 <= k < rest.len() implies !pred(#[trigger] rest[k]) by {
            assert(rest[k] == list[k]);
        }
        assert(!pred(list[list.len() - 1]));
        lemma_filter_none(rest, pred);
    }
}

/// When a batch is done its workspaces join the others: none is lost and none
/// added, they stand in the order of their identifiers, and those with the same
/// one in the order they came in.
pub proof fn batches_join_in_order(b: &mut BarState, r: BarAction, id: u64)
    requires
        call_ensures(BarState::done, (b,), r),
    ensures
        final(b).pending_workspaces@.len() == 0,
        final(b).workspaces@.to_multiset() == (old(b).workspaces@ + old(
            b,
        ).pending_workspaces@).to_multiset(),
        forall|i: int, j: int|
            0 <= i < j < final(b).workspaces@.len() ==> (#[trigger] final(b).workspaces@[i]).id <= (
            #[trigger] final(b).workspaces@[j]).id,
        final(b).workspaces@.filter(|e: WorkspaceEntry| e.id == id) == (old(b).workspaces@ + old(
            b,
        ).pending_workspaces@).filter(|e: WorkspaceEntry| e.id == id),
{
    let all = old(b).workspaces@ + old(b).pending_workspaces@;
    bar_order_keeps_all(all);
    bar_order_ascends(all);
    lemma_order_is_stable(all, id);
}

/// The bar has a surface exactly from two workspaces on. It is created when the
/// second comes and destroyed when it is gone; in between it is drawn, once it
/// has a size. A new surface has none yet.
pub proof fn surfaces_come_and_go(b: &mut BarState, r: BarAction, count: int)
    requires
        call_ensures(BarState::done, (b,), r),
        count == old(b).workspaces@.len() + old(b).pending_workspaces@.len(),
    ensures
        final(b).workspaces@.len() == count,
        final(b).layer == (count >= 2),
        (r == BarAction::Create) == (!old(b).layer && final(b).layer),
        (r == BarAction::Destroy) == (old(b).layer && !final(b).layer),
        (r == BarAction::Draw) == (old(b).layer && final(b).layer && old(b).configured_once),
        r == BarAction::Create || r == BarAction::Destroy ==> !final(b).configured_once,
        r == BarAction::Draw || r == BarAction::Nothing ==> final(b).configured_once == old(
            b,
        ).configured_once && final(b).surface_size == old(b).surface_size,
        r == BarAction::Destroy ==> final(b).surface_size is None,
        final(b).exit == old(b).exit,
{
    bar_order_keeps_all(old(b).workspaces@ + old(b).pending_workspaces@);
}

/// Looking at the bar's surface again without a batch decides as an empty batch
/// would.
pub proof fn visibility_follows_the_count(b: &mut BarState, r: BarAction)
    requires
        call_ensures(BarState::update_visibility, (b,), r),
    ensures
        final(b).layer == (old(b).workspaces@.len() >= 2),
        (r == BarAction::Create) == (!old(b).layer && final(b).layer),
        (r == BarAction::Destroy) == (old(b).layer && !final(b).layer),
        (r == BarAction::Draw) == (old(b).layer && final(b).layer && old(b).configured_once),
        final(b).configured_once ==> old(b).configured_once && final(b).layer == old(b).layer,
        r == BarAction::Draw || r == BarAction::Nothing ==> *final(b) == *old(b),
        r == BarAction::Destroy ==> final(b).surface_size is None,
        final(b).workspaces == old(b).workspaces,
        final(b).pending_workspaces == old(b).pending_workspaces,
        final(b).exit == old(b).exit,
{
}

/// A fresh bar knows no workspace, has no surface and does not exit. An announced
/// workspace waits behind the others of its batch, without a name or a number and
/// not active; those that the bar shows stay.
pub proof fn announced_workspaces_wait(
    fresh: BarState,
    b: &mut BarState,
    handle: u64,
    exits: bool,
)
    requires
        call_ensures(BarState::new, (), fresh),
        call_ensures(BarState::workspace, (b, handle), ()),
        call_ensures(BarState::exit_requested, (&*final(b),), exits),
    ensures
        fresh.workspaces@.len() == 0 && fresh.pending_workspaces@.len() == 0,
        !fresh.layer && !fresh.exit && !fresh.configured_once && fresh.surface_size is None,
        final(b).workspaces == old(b).workspaces,
        final(b).layer == old(b).layer,
        final(b).surface_size == old(b).surface_size,
        final(b).configured_once == old(b).configured_once,
        exits == old(b).exit,
        final(b).pending_workspaces@.len() == old(b).pending_workspaces@.len() + 1,
        forall|i: int|
            0 <= i < old(b).pending_workspaces@.len() ==> #[trigger] final(b).pending_workspaces@[i]
                == old(b).pending_workspaces@[i],
        ({
            let e = final(b).pending_workspaces@.last();
            e.handle == handle && e.id == 0 && e.name@.len() == 0 && !e.active
        }),
{
    assert forall|i: int| 0 <= i < old(b).pending_workspaces@.len() implies #[trigger] final(b).pending_workspaces@[i] == old(b).pending_workspaces@[i] by {
        assert(final(b).pending_workspaces@.drop_last()[i] == final(b).pending_workspaces@[i]);
    }
}

proof fn lemma_place(list: Seq<WorkspaceEntry>, handle: u64)
    ensures
        match place_of(list, handle) {
            Some(i) => 0 <= i < list.len() && list[i].handle == handle && forall|j: int|
                0 <= j < i ==> (#[trigger] list[j]).handle != handle,
            None => forall|j: int| 0 <= j < list.len() ==> (#[trigger] list[j]).handle != handle,
        },
    decreases list.len(),
{
    if list.len() > 0 {
        let rest = list.drop_last();
        lemma_place(rest, handle);
        assert forall|j: int| 0 <= j < rest.len() implies #[trigger] list[j] == rest[j] by {}
    }
}

/// What is said of a workspace is taken up by the first entry with its handle,
/// those that wait before the others: a number from the identifier, a name, or
/// whether it is active, and nothing else of it changes. No other entry does.
/// `i` is that entry's place among the waiting ones, or `j` among the others.
pub proof fn events_reach_their_workspace(
    b: &mut BarState,
    handle: u64,
    event: HandleEvent,
    i: int,
    j: int,
    wire: &str,
    id: u64,
)
    requires
        call_ensures(BarState::handle_event, (b, handle, event), ()),
        0 <= i <= old(b).pending_workspaces@.len(),
        0 <= j <= old(b).workspaces@.len(),
        forall|k: int| 0 <= k < i ==> (#[trigger] old(b).pending_workspaces@[k]).handle != handle,
        i < old(b).pending_workspaces@.len() ==> old(b).pending_workspaces@[i].handle == handle,
        forall|k: int| 0 <= k < j ==> (#[trigger] old(b).workspaces@[k]).handle != handle,
        j < old(b).workspaces@.len() ==> old(b).workspaces@[j].handle == handle,
        event matches HandleEvent::Id(text) ==> text@ == wire@,
        call_ensures(parse_id, (wire,), id),
    ensures
        final(b).pending_workspaces@.len() == old(b).pending_workspaces@.len(),
        final(b).workspaces@.len() == old(b).workspaces@.len(),
        forall|k: int|
            0 <= k < old(b).pending_workspaces@.len() && k != i
                ==> #[trigger] final(b).pending_workspaces@[k] == old(b).pending_workspaces@[k],
        forall|k: int|
            0 <= k < old(b).workspaces@.len() && (k != j || i < old(b).pending_workspaces@.len())
                ==> #[trigger] final(b).workspaces@[k] == old(b).workspaces@[k],
        i < old(b).pending_workspaces@.len() ==> takes_up(
            old(b).pending_workspaces@[i],
            final(b).pending_workspaces@[i],
            event,
            id,
        ),
        i == old(b).pending_workspaces@.len() && j < old(b).workspaces@.len() ==> takes_up(
            old(b).workspaces@[j],
            final(b).workspaces@[j],
            event,
            id,
        ),
        final(b).layer == old(b).layer,
        final(b).surface_size == old(b).surface_size,
        final(b).configured_once == old(b).configured_once,
        final(b).exit == old(b).exit,
{
    lemma_place(old(b).pending_workspaces@, handle);
    lemma_place(old(b).workspaces@, handle);
    let pending = old(b).pending_workspaces@;
    let known = old(b).workspaces@;
    if let Some(p) = place_of(pending, handle) {
        assert(pending[p].handle == handle);
        assert(i == p);
    }
    if let Some(p) = place_of(known, handle) {
        assert(known[p].handle == handle);
        assert(j == p);
    }
}

/// The entry after an event that gave it the number `id`, a name, or told whether
/// it is active.
pub open spec fn takes_up(
    before: WorkspaceEntry,
    after: WorkspaceEntry,
    event: HandleEvent,
    id: u64,
) -> bool {
    &&& after.handle == before.handle
    &&& after.hit_rect == before.hit_rect
    &&& after.id == if event is Id {
        id
    } else {
        before.id
    }
    &&& match event {
        HandleEvent::Name(name) => after.name@ == name@,
        _ => after.name == before.name,
    }
    &&& after.active == match event {
        HandleEvent::Active(active) => active,
        _ => before.active,
    }
}

proof fn lemma_without(list: Seq<WorkspaceEntry>, handle: u64)
    ensures
        without(list, handle) == list.filter(|e: WorkspaceEntry| e.handle != handle),
    decreases list.len(),
{
    reveal(Seq::filter);
    if list.len() > 0 {
        lemma_without(list.drop_last(), handle);
    }
}

/// A workspace that is gone stands nowhere in the bar any more; the others stay
/// in their order. The bar says whether it had it.
pub proof fn removed_workspaces_are_gone(b: &mut BarState, handle: u64, r: bool)
    requires
        call_ensures(BarState::removed, (b, handle), r),
    ensures
        final(b).workspaces@ == old(b).workspaces@.filter(|e: WorkspaceEntry| e.handle != handle),
        final(b).pending_workspaces@ == old(b).pending_workspaces@.filter(
            |e: WorkspaceEntry| e.handle != handle,
        ),
        r == ((exists|i: int|
            0 <= i < old(b).workspaces@.len() && (#[trigger] old(b).workspaces@[i]).handle
                == handle) || (exists|i: int|
            0 <= i < old(b).pending_workspaces@.len() && (#[trigger] old(
                b,
            ).pending_workspaces@[i]).handle == handle)),
        final(b).layer == old(b).layer,
        final(b).surface_size == old(b).surface_size,
        final(b).configured_once == old(b).configured_once,
        final(b).exit == old(b).exit,
{
    lemma_without(old(b).workspaces@, handle);
    lemma_without(old(b).pending_workspaces@, handle);
    lemma_place(old(b).pending_workspaces@, handle);
    lemma_place(old(b).workspaces@, handle);
}

/// A bar that the compositor is done with exits and gives its surface up; one
/// whose surface was taken away only loses that.
pub proof fn surfaces_are_given_up(
    a: &mut BarState,
    r: BarAction,
    exits: bool,
    b: &mut BarState,
)
    requires
        call_ensures(BarState::finished, (a,), r),
        call_ensures(BarState::exit_requested, (&*final(a),), exits),
        call_ensures(BarState::closed, (b,), ()),
    ensures
        exits,
        !final(a).layer,
        (r == BarAction::Destroy) == old(a).layer,
        (r == BarAction::Nothing) == !old(a).layer,
        final(a).workspaces@.len() == 0,
        !final(b).layer && final(b).surface_size is None && !final(b).configured_once,
        final(b).workspaces == old(b).workspaces,
        final(b).pending_workspaces == old(b).pending_workspaces,
        final(b).exit == old(b).exit,
{
}

/// A surface takes the size it is given; a width that is left open is a pixel, a
/// height the bar's. From then on it is drawn.
pub proof fn surfaces_take_their_size(b: &mut BarState, w: u32, h: u32)
    requires
        call_ensures(BarState::configure, (b, w, h), ()),
    ensures
        final(b).configured_once,
        final(b).surface_size matches Some(s) && {
            &&& w > 0 ==> s.w == w
            &&& w == 0 ==> s.w == 1
            &&& h > 0 ==> s.h == h
            &&& h == 0 ==> s.h == 28
        },
        final(b).layer == old(b).layer,
        final(b).workspaces == old(b).workspaces,
        final(b).pending_workspaces == old(b).pending_workspaces,
        final(b).exit == old(b).exit,
{
}

/// The first pill stands eight pixels from the left, each one further six pixels
/// behind the one before it; a pill has twelve pixels beside its text and keeps
/// three from the bar's edges. A click on it finds its workspace, also up to ten
/// pixels above or below it.
pub proof fn pills_are_placed_and_hit(
    b: &mut BarState,
    widths: &[i32],
    height: u32,
    i: int,
    p: Point,
    r: Option<u64>,
)
    requires
        call_ensures(BarState::place_pills, (b, widths, height), ()),
        call_ensures(BarState::hit_test, (&*final(b), p), r),
        widths@.len() == old(b).workspaces@.len(),
        forall|k: int| 0 <= k < widths@.len() ==> 0 <= #[trigger] widths@[k],
        pill_x(widths@, widths@.len() as int) <= i32::MAX,
        height <= i32::MAX,
        0 <= i < widths@.len(),
    ensures
        ({
            let h = final(b).workspaces@[i].hit_rect;
            &&& i == 0 ==> h.x == 8
            &&& i > 0 ==> h.x == final(b).workspaces@[i - 1].hit_rect.x + final(b).workspaces@[i
                - 1].hit_rect.w + 6
            &&& h.w == widths@[i] + 24
            &&& h.y == 3
            &&& h.y + h.h == height - 3
            &&& 0 <= p.x - h.x < h.w && -7 <= p.y < height + 7 ==> r == Some(
                old(b).workspaces@[i].handle,
            )
        }),
        p.y < -7 || p.y >= height + 7 || p.x < 8 ==> r is None,
        final(b).workspaces@.len() == old(b).workspaces@.len(),
        final(b).workspaces@[i].handle == old(b).workspaces@[i].handle,
        final(b).workspaces@[i].id == old(b).workspaces@[i].id,
        final(b).workspaces@[i].name == old(b).workspaces@[i].name,
        final(b).workspaces@[i].active == old(b).workspaces@[i].active,
        final(b).pending_workspaces == old(b).pending_workspaces,
{
    let n = widths@.len() as int;
    let after = final(b).workspaces@;
    assert forall|k: int| 0 <= k < n implies 8 <= pill_x(widths@, k) && (
    #[trigger] after[k]).hit_rect.x == pill_x(widths@, k) && after[k].hit_rect.w == widths@[k] + 24
        && after[k].hit_rect.y == 3 && after[k].hit_rect.h == height - 6 by {
        lemma_pill_x_grows(widths@, k, n);
        lemma_pill_x_grows(widths@, k + 1, n);
        assert(0 <= widths@[k]);
    }
    assert(after[i].hit_rect.y == 3);
    if i > 0 {
        assert(after[i - 1].hit_rect.x == pill_x(widths@, i - 1));
    }
    let h = after[i].hit_rect;
    if 0 <= p.x - h.x < h.w && -7 <= p.y < height + 7 {
        assert(pill_hit(after[i], p));
        assert forall|j: int| 0 <= j < n && j != i implies !pill_hit(#[trigger] after[j], p) by {
            if j < i {
                pills_do_not_overlap(widths@, j, i);
            } else {
                pills_do_not_overlap(widths@, i, j);
            }
        }
    }
}

/// The bar's ground has one dark color everywhere.
pub proof fn the_bar_is_dark(
    canvas: &mut [u8],
    w: int,
    h: int,
    px: int,
    py: int,
    c: int,
)
    requires
        call_ensures(draw_background, (canvas,), ()),
        4 * (w * h) <= old(canvas)@.len(),
        0 <= px < w,
        0 <= py < h,
        0 <= c < 4,
    ensures
        final(canvas)@.len() == old(canvas)@.len(),
        final(canvas)@[byte_at(w, px, py, c)] == seq![0x2eu8, 0x1eu8, 0x1eu8, 0xffu8][c],
{
    lemma_byte_at(w, h, px, py, c);
}

/// A pill covers the pixels that a click on it is looked for in, and no others;
/// that of the active workspace is light, the others are dark.
pub proof fn pills_are_drawn_where_they_are_hit(
    canvas: &mut [u8],
    w: i32,
    h: i32,
    e: &WorkspaceEntry,
    px: int,
    py: int,
    c: int,
)
    requires
        call_ensures(draw_pill, (canvas, w, h, e), ()),
        4 * (w * h) <= old(canvas)@.len(),
        0 <= px < w,
        0 <= py < h,
        0 <= c < 4,
    ensures
        final(canvas)@.len() == old(canvas)@.len(),
        ({
            let k = byte_at(w as int, px, py, c);
            let inside = 0 <= px - e.hit_rect.x < e.hit_rect.w && 0 <= py - e.hit_rect.y
                < e.hit_rect.h;
            &&& !inside ==> final(canvas)@[k] == old(canvas)@[k]
            &&& inside && e.active ==> final(canvas)@[k] == seq![0xfau8, 0xb4u8, 0x89u8, 0xffu8][c]
            &&& inside && !e.active ==> final(canvas)@[k] == seq![
                0x45u8,
                0x34u8,
                0x31u8,
                0xffu8,
            ][c]
        }),
{
    lemma_byte_at(w as int, h as int, px, py, c);
}

/// The text of a pill begins twelve pixels inside it and eleven above its middle,
/// dark on the active pill and light on the others; where it cannot be shaped
/// nothing is drawn. `y` is that line.
pub proof fn pills_have_their_text(
    canvas: &mut [u8],
    w: i32,
    h: i32,
    e: &WorkspaceEntry,
    buffer: &mut Buffer,
    fonts: &mut FontSystem,
    cache: &mut SwashCache,
    y: int,
    ink: Ink,
)
    requires
        call_ensures(draw_text, (canvas, w, h, e, buffer, fonts, cache), ()),
        call_ensures(pill_ink, (e.active,), ink),
        e.hit_rect.h >= 0,
        0 <= e.hit_rect.h - 2 * (y + 11 - e.hit_rect.y) <= 1,
    ensures
        can_shape(lines_of(*old(buffer)), held_weights(*final(fonts))) ==> shows_dots(
            old(canvas)@,
            final(canvas)@,
            w as int,
            h as int,
            e.hit_rect.x + 12,
            y,
            lines_of(*old(buffer)),
            ink,
        ),
        !can_shape(lines_of(*old(buffer)), held_weights(*final(fonts))) ==> final(canvas)@ == old(
            canvas,
        )@,
        e.active ==> ink.r == 0x1e && ink.g == 0x1e && ink.b == 0x2e && ink.a == 0xff,
        !e.active ==> ink.r == 0xdc && ink.g == 0xe0 && ink.b == 0xf5 && ink.a == 0xff,
{
}

} // verus!
