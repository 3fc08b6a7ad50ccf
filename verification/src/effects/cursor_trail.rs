//! The cursor trail: when its elastic chain of beads starts over, moves on, and
//! comes to rest. The beads' motion is computed outside.

use vstd::prelude::*;

verus! {

/// What happens to the beads before a frame.
#[derive(Debug, Clone, Copy, PartialEq, Eq, Structural)]
pub enum TrailStep {
    /// There is no cursor to follow.
    Rest,
    /// All beads move to the cursor.
    Gather,
    /// The beads move on by this many nanoseconds.
    Follow { dt: u64 },
}

#[derive(Debug, Clone, Copy, PartialEq, Eq, Structural)]
pub struct CursorTrail {
    pub enabled: bool,
    pub last_time: Option<u64>,
    /// No bead moves.
    pub settled: bool,
}

impl CursorTrail {
    pub fn new() -> (r: CursorTrail)
        ensures
            r == (CursorTrail { enabled: false, last_time: None, settled: true }),
    {
        CursorTrail { enabled: false, last_time: None, settled: true }
    }

    /// Turned off, the trail comes to rest.
    pub fn set_enabled(&mut self, enabled: bool)
        ensures
            *final(self) == if enabled {
                CursorTrail { enabled, ..*old(self) }
            } else {
                CursorTrail { enabled, last_time: None, settled: true }
            },
    {
        self.enabled = enabled;
        if !enabled {
            self.last_time = None;
            self.settled = true;
        }
    }

    /// What happens to the beads for the frame at `now`. Without time passed
    /// since the last one they gather at the cursor. The result of a
    /// [`TrailStep::Follow`] goes to [`Self::followed`].
    pub fn pre_paint(&mut self, cursor: bool, now: u64) -> (r: TrailStep)
        requires
            old(self).last_time matches Some(prev) ==> prev <= now,
        ensures
            r == if !cursor {
                TrailStep::Rest
            } else {
                match old(self).last_time {
                    Some(prev) if prev < now => TrailStep::Follow { dt: (now - prev) as u64 },
                    _ => TrailStep::Gather,
                }
            },
            *final(self) == match r {
                TrailStep::Rest => CursorTrail { last_time: None, ..*old(self) },
                TrailStep::Gather => CursorTrail {
                    last_time: Some(now),
                    settled: false,
                    ..*old(self)
                },
                TrailStep::Follow { dt } => CursorTrail { last_time: Some(now), ..*old(self) },
            },
    {
        if !cursor {
            self.last_time = None;
            return TrailStep::Rest;
        }
        let dt: u64 = match self.last_time {
            Some(prev) => now - prev,
            None => 0,
        };
        self.last_time = Some(now);
        if dt == 0 {
            self.settled = false;
            return TrailStep::Gather;
        }
        TrailStep::Follow { dt }
    }

    /// The beads have moved on; `moving` says whether any still does.
    pub fn followed(&mut self, moving: bool)
        ensures
            *final(self) == (CursorTrail { settled: !moving, ..*old(self) }),
    {
        self.settled = !moving;
    }

    /// Whether the trail is painted.
    pub fn shown(&self, cursor: bool) -> (r: bool)
        ensures
            r == (cursor && !self.settled),
    {
        cursor && !self.settled
    }

    /// Whether another frame is wanted: until the beads are at rest.
    pub fn post_paint(&self) -> (r: bool)
        ensures
            r == !self.settled,
    {
        !self.settled
    }
}

/// Nothing moves in a fresh trail, and a trail that is turned off comes to rest
/// and forgets the last frame: turned on again, its beads start at the cursor.
pub proof fn a_trail_that_was_off_gathers(
    fresh: CursorTrail,
    t: &mut CursorTrail,
    enabled: bool,
    shown: bool,
    wanted: bool,
)
    requires
        call_ensures(CursorTrail::new, (), fresh),
        call_ensures(CursorTrail::set_enabled, (t, enabled), ()),
        call_ensures(CursorTrail::shown, (&*final(t), true), shown),
        call_ensures(CursorTrail::post_paint, (&*final(t),), wanted),
    ensures
        !fresh.enabled && fresh.last_time is None && fresh.settled,
        final(t).enabled == enabled,
        !enabled ==> final(t).last_time is None && !shown && !wanted,
        enabled ==> final(t).last_time == old(t).last_time && final(t).settled == old(t).settled,
{
}

/// The beads move on exactly by the time since the last frame. Without a frame
/// before, or in the same instant, they gather at the cursor and are shown.
/// Without a cursor nothing is shown, and the next frame with one starts over.
pub proof fn beads_follow_the_clock(
    t: &mut CursorTrail,
    cursor: bool,
    now: u64,
    r: TrailStep,
    shown: bool,
)
    requires
        call_ensures(CursorTrail::pre_paint, (t, cursor, now), r),
        call_ensures(CursorTrail::shown, (&*final(t), cursor), shown),
        old(t).last_time matches Some(prev) ==> prev <= now,
    ensures
        final(t).enabled == old(t).enabled,
        (r is Rest) == !cursor,
        !cursor ==> !shown && final(t).last_time is None && final(t).settled == old(t).settled,
        cursor ==> final(t).last_time == Some(now),
        r matches TrailStep::Follow { dt } ==> (old(t).last_time matches Some(prev) && dt > 0
            && prev + dt == now && final(t).settled == old(t).settled),
        r is Gather ==> shown && (old(t).last_time matches Some(prev) ==> prev == now),
{
}

/// A trail whose beads still move is shown and asks for another frame; one at
/// rest does neither.
pub proof fn moving_beads_ask_for_frames(
    t: &mut CursorTrail,
    moving: bool,
    shown: bool,
    wanted: bool,
)
    requires
        call_ensures(CursorTrail::followed, (t, moving), ()),
        call_ensures(CursorTrail::shown, (&*final(t), true), shown),
        call_ensures(CursorTrail::post_paint, (&*final(t),), wanted),
    ensures
        shown == moving,
        wanted == moving,
        final(t).enabled == old(t).enabled,
        final(t).last_time == old(t).last_time,
{
}

} // verus!
