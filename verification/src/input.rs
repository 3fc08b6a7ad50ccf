//! What an input event leads to.
//!
//! The event loop looks up what lies under the pointer and who is focused,
//! asks [`InputState::process_input_event`], and does what it says. Positions
//! come in as whole pixels relative to the surface they are tested against.

use crate::geometry::{Point, Rect};
use vstd::prelude::*;

verus! {

/// A surface of a client.
#[derive(Debug, Clone, Copy, PartialEq, Eq, Hash, Structural)]
pub struct SurfaceId(pub u64);

/// The key symbol of `x`.
pub const KEY_X: u32 = 0x78;

/// The key symbol of `c`.
pub const KEY_C: u32 = 0x63;

/// A surface that can take keyboard focus.
#[derive(Debug, Clone, Copy, PartialEq, Eq, Structural)]
pub struct Target {
    pub surface: SurfaceId,
    /// The client that the surface belongs to.
    pub client: u64,
    /// The window that Emacs knows the surface by, for an embedded program.
    pub app: Option<u64>,
}

// ---------------------------------------------------------------------------
// Regions
// ---------------------------------------------------------------------------

#[derive(Debug, Clone, Copy, PartialEq, Eq, Structural)]
pub enum RectangleKind {
    Add,
    Subtract,
}

/// A region: rectangles added and subtracted in order.
#[derive(Debug, Clone)]
pub struct Region {
    pub rects: Vec<(RectangleKind, Rect)>,
}

/// Whether `p` lies in a region: the last rectangle that covers it decides.
pub open spec fn region_covers(rects: Seq<(RectangleKind, Rect)>, p: Point) -> bool
    decreases rects.len(),
{
    if rects.len() == 0 {
        false
    } else if rects.last().1.covers(p) {
        rects.last().0 == RectangleKind::Add
    } else {
        region_covers(rects.drop_last(), p)
    }
}

impl Region {
    pub fn contains(&self, p: Point) -> (r: bool)
        ensures
            r == region_covers(self.rects@, p),
    {
        let mut n: usize = self.rects.len();
        assert(self.rects@.take(n as int) =~= self.rects@);
        while n > 0
            invariant
                n <= self.rects@.len(),
                region_covers(self.rects@, p) == region_covers(self.rects@.take(n as int), p),
            decreases n,
        {
            let (kind, rect) = self.rects[n - 1];
            assert(self.rects@.take(n as int).last() == self.rects@[n - 1]);
            assert(self.rects@.take(n as int).drop_last() =~= self.rects@.take(n - 1));
            if rect.contains(p) {
                return kind == RectangleKind::Add;
            }
            n -= 1;
        }
        false
    }
}

// ---------------------------------------------------------------------------
// Keyboard
// ---------------------------------------------------------------------------

/// Whether a key starts an Emacs key sequence: C-x, C-c or M-x.
pub open spec fn starts_prefix(ctrl: bool, alt: bool, key: Option<u32>) -> bool {
    match key {
        Some(k) => (ctrl && (k == KEY_X || k == KEY_C)) || (alt && k == KEY_X),
        None => false,
    }
}

/// Whether a key starts an Emacs key sequence. `key` is its Latin symbol, if
/// it has one.
pub fn is_prefix_key(ctrl: bool, alt: bool, key: Option<u32>) -> (r: bool)
    ensures
        r == starts_prefix(ctrl, alt, key),
{
    match key {
        Some(k) => (ctrl && (k == KEY_X || k == KEY_C)) || (alt && k == KEY_X),
        None => false,
    }
}

// ---------------------------------------------------------------------------
// Pointer motion
// ---------------------------------------------------------------------------

#[derive(Debug, Clone, Copy, PartialEq, Eq, Structural)]
pub enum ConstraintKind {
    /// The pointer does not move.
    Locked,
    /// The pointer stays on the surface or in the region.
    Confined,
}

/// An active pointer constraint of the surface that has pointer focus.
#[derive(Debug, Clone)]
pub struct Constraint {
    pub kind: ConstraintKind,
    pub region: Option<Region>,
}

/// An absolute motion of the pointer.
#[derive(Debug, Clone)]
pub struct Motion {
    /// The surface under the new position, and the position relative to it.
    pub under: Option<(SurfaceId, Point)>,
    /// The surface with pointer focus.
    pub focus: Option<SurfaceId>,
    /// The active constraint of that surface.
    pub constraint: Option<Constraint>,
    /// The position before the motion, relative to that surface, where the
    /// surface is found at all.
    pub before: Option<Point>,
    /// A constraint of the surface under the new position that is not active
    /// yet: its region, if it has one.
    pub inactive: Option<Option<Region>>,
}

#[derive(Debug, Clone, Copy, PartialEq, Eq, Structural)]
pub enum MotionAction {
    /// The pointer stays where it is; only the relative motion is reported.
    Hold,
    /// The pointer moves. The constraint of the surface under it becomes
    /// active where `activate` says so.
    Move { activate: bool },
}

/// A constraint applies where it has no region, or while the position before the motion
/// is inside it.
pub open spec fn constraint_applies(m: Motion) -> bool {
    match m.constraint {
        None => false,
        Some(c) => m.focus is Some && match c.region {
            None => true,
            Some(region) => match m.before {
                Some(p) => region_covers(region.rects@, p),
                None => false,
            },
        },
    }
}

/// Whether the new position is off the focused surface or outside the region
/// that the pointer is confined to.
pub open spec fn leaves_confinement(m: Motion) -> bool {
    match m.under {
        None => true,
        Some((surface, p)) => Some(surface) != m.focus || match m.constraint {
            Some(Constraint { region: Some(region), .. }) => !region_covers(region.rects@, p),
            _ => false,
        },
    }
}

/// Whether the constraint of the surface under the new position takes effect.
pub open spec fn activates(m: Motion) -> bool {
    match (m.under, m.inactive) {
        (Some((_, p)), Some(region)) => match region {
            None => true,
            Some(r) => region_covers(r.rects@, p),
        },
        _ => false,
    }
}

/// What a motion leads to.
pub open spec fn motion_action(m: Motion) -> MotionAction {
    if constraint_applies(m) && (m.constraint->0.kind == ConstraintKind::Locked
        || leaves_confinement(m)) {
        MotionAction::Hold
    } else {
        MotionAction::Move { activate: activates(m) }
    }
}

/// Decides a motion under the pointer constraints in force.
pub fn pointer_motion(m: &Motion) -> (r: MotionAction)
    ensures
        r == motion_action(*m),
{
    let mut locked = false;
    let mut confined = false;
    if m.focus.is_some() {
        match &m.constraint {
            Some(c) => {
                let in_region = match &c.region {
                    None => true,
                    Some(region) => match m.before {
                        Some(p) => region.contains(p),
                        None => false,
                    },
                };
                if in_region {
                    match c.kind {
                        ConstraintKind::Locked => {
                            locked = true;
                        },
                        ConstraintKind::Confined => {
                            confined = true;
                        },
                    }
                }
            },
            None => {},
        }
    }
    if locked {
        return MotionAction::Hold;
    }
    if confined {
        let leaves = match m.under {
            None => true,
            Some((surface, p)) => {
                let same = match m.focus {
                    Some(f) => f == surface,
                    None => false,
                };
                !same || match &m.constraint {
                    Some(c) => match &c.region {
                        Some(region) => !region.contains(p),
                        None => false,
                    },
                    None => false,
                }
            },
        };
        if leaves {
            return MotionAction::Hold;
        }
    }
    let activate = match m.under {
        Some((_, p)) => match &m.inactive {
            Some(region) => match region {
                None => true,
                Some(r) => r.contains(p),
            },
            None => false,
        },
        None => false,
    };
    MotionAction::Move { activate }
}

// ---------------------------------------------------------------------------
// Pointer buttons
// ---------------------------------------------------------------------------

/// A press or release of a pointer button.
#[derive(Debug, Clone, Copy, PartialEq, Eq, Structural)]
pub struct Button {
    pub pressed: bool,
    pub left: bool,
    /// Whether an enabled skeleton label lies under the pointer.
    pub on_skeleton_label: bool,
    /// Whether a client holds a pointer grab.
    pub grabbed: bool,
    /// What lies under the pointer.
    pub under: Option<Target>,
    /// The mirror under the pointer.
    pub mirror: Option<ViewRef>,
    /// The Emacs surface.
    pub emacs: Option<Target>,
    /// The client with keyboard focus.
    pub focused_client: Option<u64>,
}

/// A view of an embedded program's window, as Emacs knows it.
#[derive(Debug, Clone, Copy, PartialEq, Eq, Structural)]
pub struct ViewRef {
    pub window_id: u64,
    pub view_id: u64,
}

/// What to do for a button event that goes to the client.
#[derive(Debug, Clone, Copy, PartialEq, Eq, Structural)]
pub struct Delivery {
    /// The view to tell Emacs to select.
    pub focus_view: Option<ViewRef>,
    /// The new keyboard focus, where it changes.
    pub set_focus: Option<Option<SurfaceId>>,
}

#[derive(Debug, Clone, Copy, PartialEq, Eq, Structural)]
pub enum ButtonAction {
    /// The event ends here.
    Absorb,
    /// The event goes to the client.
    Deliver(Delivery),
}

/// The surface that a press gives focus to: the one under the pointer, else
/// Emacs.
pub open spec fn press_target(b: Button) -> Option<Target> {
    match b.under {
        Some(t) => Some(t),
        None => b.emacs,
    }
}

/// The view that Emacs selects on a left press: the mirror under the pointer,
/// else the embedded program that is pressed.
pub open spec fn press_view(b: Button) -> Option<ViewRef> {
    if !b.left {
        None
    } else {
        match b.mirror {
            Some(view) => Some(view),
            None => match press_target(b) {
                Some(Target { app: Some(window), .. }) => Some(ViewRef { window_id: window, view_id: 0 }),
                _ => None,
            },
        }
    }
}

/// Whether a press is on a surface of the client that has keyboard focus. A
/// press on a popup of the same client must not take focus from it.
pub open spec fn press_same_client(b: Button) -> bool {
    match (press_target(b), b.focused_client) {
        (Some(t), Some(client)) => t.client == client,
        _ => false,
    }
}

/// What a button event that goes to the client leads to.
pub open spec fn delivery(b: Button) -> Delivery {
    if b.pressed && !b.grabbed {
        Delivery {
            focus_view: press_view(b),
            set_focus: if press_same_client(b) {
                None
            } else {
                Some(
                    match press_target(b) {
                        Some(t) => Some(t.surface),
                        None => None,
                    },
                )
            },
        }
    } else {
        Delivery { focus_view: None, set_focus: None }
    }
}

// ---------------------------------------------------------------------------
// All events
// ---------------------------------------------------------------------------

#[derive(Debug, Clone)]
pub enum InputEvent {
    /// A key, with the modifiers and its Latin symbol, the surface with
    /// keyboard focus and the Emacs surface.
    Keyboard {
        ctrl: bool,
        alt: bool,
        key: Option<u32>,
        focus: Option<SurfaceId>,
        emacs: Option<SurfaceId>,
    },
    PointerMotionAbsolute(Motion),
    PointerButton(Button),
    /// Anything else. Relative motion is derived from absolute motion, so
    /// reported relative motion is ignored.
    Other,
}

#[derive(Debug, Clone, Copy, PartialEq, Eq, Structural)]
pub enum InputAction {
    /// Move keyboard focus where a surface is given, then forward the key.
    ForwardKey { set_focus: Option<SurfaceId> },
    Motion(MotionAction),
    Button(ButtonAction),
    Nothing,
}

/// What is remembered between input events.
#[derive(Debug, Clone, Copy, PartialEq, Eq, Structural)]
pub struct InputState {
    /// The keyboard focus to restore after an Emacs key sequence; `None` while
    /// no sequence runs.
    pub prefix_saved_focus: Option<Option<SurfaceId>>,
    /// A press was absorbed; its release must be too.
    pub skeleton_click_absorbed: bool,
}

impl InputState {
    /// The state after an event.
    pub open spec fn after(self, event: InputEvent) -> InputState {
        match event {
            InputEvent::Keyboard { ctrl, alt, key, focus, .. } => if starts_prefix(ctrl, alt, key)
                && self.prefix_saved_focus is None {
                InputState { prefix_saved_focus: Some(focus), ..self }
            } else {
                self
            },
            InputEvent::PointerButton(b) => if b.pressed && b.left && b.on_skeleton_label {
                InputState { skeleton_click_absorbed: true, ..self }
            } else if !b.pressed && self.skeleton_click_absorbed {
                InputState { skeleton_click_absorbed: false, ..self }
            } else if delivery(b).set_focus is Some {
                InputState { prefix_saved_focus: None, ..self }
            } else {
                self
            },
            _ => self,
        }
    }

    /// What an event leads to.
    pub open spec fn action(self, event: InputEvent) -> InputAction {
        match event {
            InputEvent::Keyboard { ctrl, alt, key, focus, emacs } => InputAction::ForwardKey {
                set_focus: if starts_prefix(ctrl, alt, key) && emacs is Some && focus != emacs {
                    emacs
                } else {
                    None
                },
            },
            InputEvent::PointerMotionAbsolute(m) => InputAction::Motion(motion_action(m)),
            InputEvent::PointerButton(b) => if (b.pressed && b.left && b.on_skeleton_label) || (
            !b.pressed && self.skeleton_click_absorbed) {
                InputAction::Button(ButtonAction::Absorb)
            } else {
                InputAction::Button(ButtonAction::Deliver(delivery(b)))
            },
            InputEvent::Other => InputAction::Nothing,
        }
    }

    /// Nothing remembered.
    pub fn new() -> (r: InputState)
        ensures
            r == (InputState { prefix_saved_focus: None, skeleton_click_absorbed: false }),
    {
        InputState { prefix_saved_focus: None, skeleton_click_absorbed: false }
    }

    /// Decides what an event leads to.
    pub fn process_input_event(&mut self, event: &InputEvent) -> (r: InputAction)
        ensures
            r == old(self).action(*event),
            *final(self) == old(self).after(*event),
    {
        match event {
            InputEvent::Keyboard { ctrl, alt, key, focus, emacs } => {
                let mut set_focus: Option<SurfaceId> = None;
                if is_prefix_key(*ctrl, *alt, *key) {
                    if self.prefix_saved_focus.is_none() {
                        self.prefix_saved_focus = Some(*focus);
                    }
                    match *emacs {
                        Some(e) => {
                            let there = match *focus {
                                Some(f) => f == e,
                                None => false,
                            };
                            if !there {
                                set_focus = Some(e);
                            }
                        },
                        None => {},
                    }
                }
                InputAction::ForwardKey { set_focus }
            },
            InputEvent::PointerMotionAbsolute(m) => InputAction::Motion(pointer_motion(m)),
            InputEvent::PointerButton(b) => InputAction::Button(self.pointer_button(b)),
            InputEvent::Other => InputAction::Nothing,
        }
    }

    /// Decides a button event.
    fn pointer_button(&mut self, b: &Button) -> (r: ButtonAction)
        ensures
            InputAction::Button(r) == old(self).action(InputEvent::PointerButton(*b)),
            *final(self) == old(self).after(InputEvent::PointerButton(*b)),
    {
        if b.pressed && b.left && b.on_skeleton_label {
            self.skeleton_click_absorbed = true;
            return ButtonAction::Absorb;
        }
        if !b.pressed && self.skeleton_click_absorbed {
            self.skeleton_click_absorbed = false;
            return ButtonAction::Absorb;
        }
        let mut focus_view: Option<ViewRef> = None;
        let mut set_focus: Option<Option<SurfaceId>> = None;
        if b.pressed && !b.grabbed {
            let target = match b.under {
                Some(t) => Some(t),
                None => b.emacs,
            };
            if b.left {
                focus_view = match b.mirror {
                    Some(view) => Some(view),
                    None => match target {
                        Some(t) => match t.app {
                            Some(window) => Some(ViewRef { window_id: window, view_id: 0 }),
                            None => None,
                        },
                        None => None,
                    },
                };
            }
            let same_client = match target {
                Some(t) => match b.focused_client {
                    Some(client) => t.client == client,
                    None => false,
                },
                None => false,
            };
            if !same_client {
                set_focus = Some(
                    match target {
                        Some(t) => Some(t.surface),
                        None => None,
                    },
                );
                self.prefix_saved_focus = None;
            }
        }
        ButtonAction::Deliver(Delivery { focus_view, set_focus })
    }

    /// Whether a new window may take keyboard focus: not while an Emacs key
    /// sequence runs, which it would break.
    pub fn may_focus_new_window(&self) -> (r: bool)
        ensures
            r == (self.prefix_saved_focus is None),
    {
        self.prefix_saved_focus.is_none()
    }
}

// ---------------------------------------------------------------------------
// What input handling promises
// ---------------------------------------------------------------------------

impl InputState {
    /// The state after a sequence of events.
    pub open spec fn after_all(self, events: Seq<InputEvent>) -> InputState
        decreases events.len(),
    {
        if events.len() == 0 {
            self
        } else {
            self.after_all(events.drop_last()).after(events.last())
        }
    }
}

/// Whether an event is the release of a button.
pub open spec fn is_release(event: InputEvent) -> bool {
    match event {
        InputEvent::PointerButton(b) => !b.pressed,
        _ => false,
    }
}

/// Until a button is released, an absorbed press is remembered.
proof fn lemma_absorbed_until_release(s: InputState, events: Seq<InputEvent>)
    requires
        s.skeleton_click_absorbed,
        forall|i: int| 0 <= i < events.len() ==> !is_release(#[trigger] events[i]),
    ensures
        s.after_all(events).skeleton_click_absorbed,
    decreases events.len(),
{
    if events.len() > 0 {
        let n = events.len() - 1;
        assert(!is_release(events[n]));
        lemma_absorbed_until_release(s, events.drop_last());
    }
}

/// A client never sees the release of a press that was absorbed: whatever other
/// events come in between, the next release is absorbed too, and that ends it.
pub proof fn absorbed_press_absorbs_its_release(
    s: InputState,
    press: Button,
    between: Seq<InputEvent>,
    release: Button,
)
    requires
        press.pressed,
        press.left,
        press.on_skeleton_label,
        !release.pressed,
        forall|i: int| 0 <= i < between.len() ==> !is_release(#[trigger] between[i]),
    ensures
        s.action(InputEvent::PointerButton(press)) == InputAction::Button(ButtonAction::Absorb),
        s.after(InputEvent::PointerButton(press)).after_all(between).action(
            InputEvent::PointerButton(release),
        ) == InputAction::Button(ButtonAction::Absorb),
        !s.after(InputEvent::PointerButton(press)).after_all(between).after(
            InputEvent::PointerButton(release),
        ).skeleton_click_absorbed,
{
    lemma_absorbed_until_release(s.after(InputEvent::PointerButton(press)), between);
}

/// A release is absorbed only after an absorbed press: a press that reached the
/// client is followed by its release.
pub proof fn delivered_press_delivers_its_release(s: InputState, press: Button, release: Button)
    requires
        !s.skeleton_click_absorbed,
        press.pressed,
        !release.pressed,
        s.action(InputEvent::PointerButton(press)) != InputAction::Button(ButtonAction::Absorb),
    ensures
        s.after(InputEvent::PointerButton(press)).action(InputEvent::PointerButton(release))
            != InputAction::Button(ButtonAction::Absorb),
{
}

/// A key sequence that is already running keeps the focus it started from, so
/// that further prefix keys do not make Emacs itself the focus to restore.
pub proof fn prefix_keeps_its_first_focus(s: InputState, event: InputEvent)
    requires
        s.prefix_saved_focus is Some,
        event is Keyboard,
    ensures
        s.after(event).prefix_saved_focus == s.prefix_saved_focus,
{
}

/// A locked pointer does not move while its constraint applies, and a confined
/// one never leaves its surface.
pub proof fn constraints_hold(m: Motion)
    requires
        constraint_applies(m),
        motion_action(m) is Move,
    ensures
        m.constraint->0.kind == ConstraintKind::Confined,
        m.under is Some,
        Some((m.under->0).0) == m.focus,
        m.constraint->0.region matches Some(region) ==> region_covers(
            region.rects@,
            (m.under->0).1,
        ),
{
}

/// A press that goes to a client without a grab gives the keyboard to the
/// surface under the pointer, else to Emacs, else to nobody. The client that has
/// the keyboard keeps it where it is: a press on its popup moves nothing. Where
/// the keyboard moves, a running key sequence is forgotten.
pub proof fn presses_move_the_keyboard(
    s: &mut InputState,
    b: Button,
    target: Option<Target>,
    r: InputAction,
)
    requires
        call_ensures(
            InputState::process_input_event,
            (s, &InputEvent::PointerButton(b)),
            r,
        ),
        b.pressed,
        !b.grabbed,
        !(b.left && b.on_skeleton_label),
        b.under is Some ==> target == b.under,
        b.under is None ==> target == b.emacs,
    ensures
        r matches InputAction::Button(ButtonAction::Deliver(d)) && {
            &&& target matches Some(t) ==> b.focused_client == Some(t.client) ==> d.set_focus
                is None && final(s).prefix_saved_focus == old(s).prefix_saved_focus
            &&& target matches Some(t) ==> b.focused_client != Some(t.client) ==> d.set_focus
                == Some(Some(t.surface)) && final(s).prefix_saved_focus is None
            &&& target is None ==> d.set_focus == Some(None::<SurfaceId>)
            &&& target is None ==> final(s).prefix_saved_focus is None
        },
        final(s).skeleton_click_absorbed == old(s).skeleton_click_absorbed,
{
}

/// Only a left press makes Emacs select a view: the mirror under the pointer,
/// else the embedded program that is pressed, whose own view is number zero.
pub proof fn left_presses_select_a_view(s: &mut InputState, b: Button, r: InputAction)
    requires
        call_ensures(
            InputState::process_input_event,
            (s, &InputEvent::PointerButton(b)),
            r,
        ),
        b.pressed,
        !b.grabbed,
        !(b.left && b.on_skeleton_label),
    ensures
        r matches InputAction::Button(ButtonAction::Deliver(d)) && {
            &&& !b.left ==> d.focus_view is None
            &&& b.left && b.mirror is Some ==> d.focus_view == b.mirror
            &&& b.left && b.mirror is None && b.under is Some ==> match b.under->0.app {
                Some(window) => d.focus_view is Some && d.focus_view->0.window_id == window
                    && d.focus_view->0.view_id == 0,
                None => d.focus_view is None,
            }
            &&& b.left && b.mirror is None && b.under is None && b.emacs is None
                ==> d.focus_view is None
        },
{
}

/// A release, and a press during a grab, leaves the keyboard and the selected
/// view where they are. It is the client's, unless it is kept from it together
/// with its press.
pub proof fn releases_and_grabs_move_nothing(s: &mut InputState, b: Button, r: InputAction)
    requires
        call_ensures(
            InputState::process_input_event,
            (s, &InputEvent::PointerButton(b)),
            r,
        ),
        !b.pressed || b.grabbed,
    ensures
        final(s).prefix_saved_focus == old(s).prefix_saved_focus,
        r matches InputAction::Button(ButtonAction::Deliver(d)) ==> d.set_focus is None
            && d.focus_view is None,
        r == InputAction::Button(ButtonAction::Absorb) <==> (if b.pressed {
            b.left && b.on_skeleton_label
        } else {
            old(s).skeleton_click_absorbed
        }),
        r is Button,
{
}

/// A press is kept from the client if and only if it is a left one on a label
/// of the skeleton; that leaves the keyboard where it is.
pub proof fn labels_absorb_left_presses(s: &mut InputState, b: Button, r: InputAction)
    requires
        call_ensures(
            InputState::process_input_event,
            (s, &InputEvent::PointerButton(b)),
            r,
        ),
        b.pressed,
    ensures
        r == InputAction::Button(ButtonAction::Absorb) <==> b.left && b.on_skeleton_label,
        r == InputAction::Button(ButtonAction::Absorb) ==> final(s).skeleton_click_absorbed
            && final(s).prefix_saved_focus == old(s).prefix_saved_focus,
{
}

/// C-x, C-c and M-x hand the keyboard to Emacs, where it is not there already,
/// and remember who had it; every other key goes where the keyboard is. No key
/// is lost.
pub proof fn prefix_keys_go_to_emacs(
    s: &mut InputState,
    ctrl: bool,
    alt: bool,
    key: Option<u32>,
    focus: Option<SurfaceId>,
    emacs: Option<SurfaceId>,
    r: InputAction,
)
    requires
        call_ensures(
            InputState::process_input_event,
            (s, &InputEvent::Keyboard { ctrl, alt, key, focus, emacs }),
            r,
        ),
    ensures
        ({
            let prefix = (ctrl && (key == Some('x' as u32) || key == Some('c' as u32))) || (alt
                && key == Some('x' as u32));
            &&& r matches InputAction::ForwardKey { set_focus } && {
                &&& prefix && focus != emacs ==> set_focus == emacs
                &&& !prefix || focus == emacs ==> set_focus is None
            }
            &&& prefix && old(s).prefix_saved_focus is None ==> final(s).prefix_saved_focus
                == Some(focus)
            &&& !prefix || old(s).prefix_saved_focus is Some ==> final(s).prefix_saved_focus
                == old(s).prefix_saved_focus
        }),
        final(s).skeleton_click_absorbed == old(s).skeleton_click_absorbed,
{
}

/// While a key sequence runs, a new window does not take the keyboard; else it
/// may.
pub proof fn sequences_keep_the_keyboard(s: InputState, r: bool)
    requires
        call_ensures(InputState::may_focus_new_window, (&s,), r),
    ensures
        s.prefix_saved_focus is Some ==> !r,
        s.prefix_saved_focus is None ==> r,
{
}

/// The pointer moves freely where the focused surface has no constraint. It is
/// held by a lock, and by a confinement that it would leave, but only while the
/// constraint's region, if it has one, covers where the pointer was.
pub proof fn constraints_hold_the_pointer(m: Motion, r: MotionAction)
    requires
        call_ensures(pointer_motion, (&m,), r),
    ensures
        m.constraint is None || m.focus is None ==> r is Move,
        m.constraint matches Some(c) ==> c.region is None && m.focus is Some ==> {
            &&& c.kind == ConstraintKind::Locked ==> r is Hold
            &&& c.kind == ConstraintKind::Confined ==> (r is Hold <==> m.under is None || Some(
                (m.under->0).0,
            ) != m.focus)
        },
        m.constraint matches Some(c) ==> c.region matches Some(region) ==> m.before is None
            ==> r is Move,
        m.constraint matches Some(c) ==> c.region matches Some(region) ==> m.before matches Some(p)
            ==> !region_covers(region.rects@, p) ==> r is Move,
        m.constraint matches Some(c) ==> c.region matches Some(region) ==> m.before matches Some(p)
            ==> region_covers(region.rects@, p) && m.focus is Some ==> {
            &&& c.kind == ConstraintKind::Locked ==> r is Hold
            &&& c.kind == ConstraintKind::Confined ==> (r is Hold <==> m.under is None || Some(
                (m.under->0).0,
            ) != m.focus || !region_covers(region.rects@, (m.under->0).1))
        },
{
}

/// A constraint of the surface that the pointer moves to takes effect at once
/// where it has no region, and otherwise as soon as the pointer is inside it.
pub proof fn constraints_take_effect_inside(m: Motion, r: MotionAction)
    requires
        call_ensures(pointer_motion, (&m,), r),
        r is Move,
    ensures
        m.inactive is None || m.under is None ==> r == (MotionAction::Move { activate: false }),
        m.inactive matches Some(None) ==> m.under is Some ==> r == (MotionAction::Move {
            activate: true,
        }),
        m.inactive matches Some(Some(region)) ==> m.under matches Some((_, p)) ==> r == (
        MotionAction::Move { activate: region_covers(region.rects@, p) }),
{
}

/// A point is in a region if and only if some rectangle that was added covers
/// it and no later one that was subtracted does. A rectangle covers its left and
/// top edge, and not its right and bottom edge.
pub proof fn later_rectangles_decide(region: Region, p: Point, r: bool)
    requires
        call_ensures(Region::contains, (&region, p), r),
        p.x < i32::MAX,
        p.y < i32::MAX,
    ensures
        r <==> exists|i: int|
            0 <= i < region.rects@.len() && (#[trigger] region.rects@[i]).0 == RectangleKind::Add
                && region.rects@[i].1.x <= p.x < region.rects@[i].1.x + region.rects@[i].1.w
                && region.rects@[i].1.y <= p.y < region.rects@[i].1.y + region.rects@[i].1.h
                && forall|j: int|
                i < j < region.rects@.len() ==> !((#[trigger] region.rects@[j]).0
                    == RectangleKind::Subtract && region.rects@[j].1.x <= p.x
                    < region.rects@[j].1.x + region.rects@[j].1.w && region.rects@[j].1.y <= p.y
                    < region.rects@[j].1.y + region.rects@[j].1.h),
{
    lemma_region(region.rects@, p);
}

/// Whether a rectangle covers a point.
spec fn spans(r: Rect, p: Point) -> bool {
    r.x <= p.x < r.x + r.w && r.y <= p.y < r.y + r.h
}

/// The added rectangle at `i` is not taken back.
spec fn adds_for_good(rects: Seq<(RectangleKind, Rect)>, p: Point, i: int) -> bool {
    &&& rects[i].0 == RectangleKind::Add && spans(rects[i].1, p)
    &&& forall|j: int|
        i < j < rects.len() ==> !((#[trigger] rects[j]).0 == RectangleKind::Subtract && spans(
            rects[j].1,
            p,
        ))
}

proof fn lemma_region(rects: Seq<(RectangleKind, Rect)>, p: Point)
    requires
        p.x < i32::MAX,
        p.y < i32::MAX,
    ensures
        region_covers(rects, p) <==> exists|i: int|
            0 <= i < rects.len() && #[trigger] adds_for_good(rects, p, i),
        region_covers(rects, p) <==> exists|i: int|
            0 <= i < rects.len() && (#[trigger] rects[i]).0 == RectangleKind::Add && spans(
                rects[i].1,
                p,
            ) && adds_for_good(rects, p, i),
    decreases rects.len(),
{
    if rects.len() > 0 {
        let rest = rects.drop_last();
        let n = rects.len() - 1;
        lemma_region(rest, p);
        assert forall|i: int| 0 <= i < n implies adds_for_good(rects, p, i) == (adds_for_good(
            rest,
            p,
            i,
        ) && !(rects[n].0 == RectangleKind::Subtract && spans(rects[n].1, p))) by {
            assert(rest[i] == rects[i]);
            if adds_for_good(rects, p, i) {
                assert forall|j: int| i < j < rest.len() implies !((#[trigger] rest[j]).0
                    == RectangleKind::Subtract && spans(rest[j].1, p)) by {
                    assert(rest[j] == rects[j]);
                }
                assert(rects[n] == rects.last());
            } else if adds_for_good(rest, p, i) && !(rects[n].0 == RectangleKind::Subtract
                && spans(rects[n].1, p)) {
                assert forall|j: int| i < j < rects.len() implies !((#[trigger] rects[j]).0
                    == RectangleKind::Subtract && spans(rects[j].1, p)) by {
                    if j < n {
                        assert(rest[j] == rects[j]);
                    }
                }
            }
        }
        if rects[n].0 == RectangleKind::Add && spans(rects[n].1, p) {
            assert(adds_for_good(rects, p, n));
        }
        if region_covers(rects, p) && !spans(rects[n].1, p) {
            let i = choose|i: int| 0 <= i < rest.len() && #[trigger] adds_for_good(rest, p, i);
            assert(adds_for_good(rects, p, i));
        }
        if exists|i: int| 0 <= i < rects.len() && #[trigger] adds_for_good(rects, p, i) {
            let i = choose|i: int| 0 <= i < rects.len() && #[trigger] adds_for_good(rects, p, i);
            if i < n {
                assert(adds_for_good(rest, p, i));
            }
        }
    }
}

/// An Emacs key sequence starts with control and x, control and c, or meta and x,
/// whatever else is held; a key without a Latin symbol starts none. A fresh state
/// remembers no focus and absorbs no click.
pub proof fn three_keys_start_a_sequence(
    ctrl: bool,
    alt: bool,
    key: Option<u32>,
    r: bool,
    fresh: InputState,
)
    requires
        call_ensures(is_prefix_key, (ctrl, alt, key), r),
        call_ensures(InputState::new, (), fresh),
    ensures
        key == Some('x' as u32) ==> r == (ctrl || alt),
        key == Some('c' as u32) ==> r == ctrl,
        key != Some('x' as u32) && key != Some('c' as u32) ==> !r,
        fresh.prefix_saved_focus is None && !fresh.skeleton_click_absorbed,
{
}

} // verus!
