//! The overlays of the compositor and the order they are painted in.

use crate::effects::chain::{EffectChain, Link, Report};
use crate::effects::cursor_trail::CursorTrail;
use crate::effects::jelly_cursor::{AnimState, JellyCursor};
use crate::effects::measure::MeasureOverlay;
use crate::effects::recorder::RecorderOverlay;
use crate::effects::skeleton::{SkeletonOverlay, SkeletonRect};
use crate::effects::splash::SplashScreen;
use vstd::prelude::*;

verus! {

/// One of the compositor's own overlays.
#[derive(Debug, Clone, Copy, PartialEq, Eq, Structural)]
pub enum Overlay {
    Splash,
    Recorder,
    Skeleton,
    Measure,
    JellyCursor,
    CursorTrail,
}

impl Overlay {
    /// Its place in the chain. A higher one is painted on top.
    pub open spec fn position(self) -> u8 {
        match self {
            Overlay::Splash => 95,
            Overlay::Recorder => 90,
            Overlay::Skeleton => 85,
            Overlay::Measure => 80,
            Overlay::JellyCursor => 77,
            Overlay::CursorTrail => 75,
        }
    }

    pub fn chain_position(self) -> (r: u8)
        ensures
            r == self.position(),
    {
        match self {
            Overlay::Splash => 95,
            Overlay::Recorder => 90,
            Overlay::Skeleton => 85,
            Overlay::Measure => 80,
            Overlay::JellyCursor => 77,
            Overlay::CursorTrail => 75,
        }
    }

    /// The overlay with its place.
    pub open spec fn link(self) -> Link<Overlay> {
        Link { effect: self, position: self.position() }
    }
}

/// The overlays with their chain.
#[derive(Debug)]
pub struct EffectsState {
    pub chain: EffectChain<Overlay>,
    pub measure: MeasureOverlay,
    pub skeleton: SkeletonOverlay,
    pub splash: SplashScreen,
    pub cursor_trail: CursorTrail,
    pub jelly_cursor: JellyCursor,
    pub recorder_overlay: RecorderOverlay,
}

impl EffectsState {
    pub open spec fn wf(&self) -> bool {
        &&& self.chain.wf()
        &&& self.measure.wf()
        &&& self.skeleton.wf()
        &&& self.splash.wf()
        &&& self.jelly_cursor.wf()
        &&& self.recorder_overlay.wf()
    }

    /// Takes a fresh overlay into a chain whose overlays all lie above it.
    fn append(chain: &mut EffectChain<Overlay>, overlay: Overlay)
        requires
            old(chain).wf(),
            forall|i: int|
                0 <= i < old(chain).links@.len() ==> (#[trigger] old(chain).links@[i]).position
                    >= overlay.position(),
        ensures
            final(chain).wf(),
            final(chain).links@ == old(chain).links@.push(overlay.link()),
    {
        let ghost before = chain.links@;
        proof {
            lemma_all_above(before, overlay.position());
        }
        chain.register(overlay, overlay.chain_position());
        assert(before.insert(before.len() as int, overlay.link()) =~= before.push(overlay.link()));
    }

    /// What an overlay says of itself. The splash and the recorder's indicator
    /// ask for frames as long as they are shown, the jelly cursor and the trail
    /// while they move; only the splash is ever done.
    pub open spec fn reported(&self, o: Overlay) -> Report {
        match o {
            Overlay::Splash => Report {
                active: !self.splash.done,
                wants_frame: !self.splash.done,
                done: self.splash.done,
            },
            Overlay::Recorder => Report {
                active: self.recorder_overlay.started_at is Some,
                wants_frame: self.recorder_overlay.started_at is Some,
                done: false,
            },
            Overlay::Skeleton => Report {
                active: self.skeleton.enabled,
                wants_frame: false,
                done: false,
            },
            Overlay::Measure => Report {
                active: self.measure.enabled,
                wants_frame: false,
                done: false,
            },
            Overlay::JellyCursor => Report {
                active: self.jelly_cursor.enabled,
                wants_frame: self.jelly_cursor.state is Animating,
                done: false,
            },
            Overlay::CursorTrail => Report {
                active: self.cursor_trail.enabled,
                wants_frame: !self.cursor_trail.settled,
                done: false,
            },
        }
    }

    /// What an overlay says of itself.
    pub fn report(&self, o: Overlay) -> (r: Report)
        ensures
            r == self.reported(o),
    {
        match o {
            Overlay::Splash => Report {
                active: !self.splash.is_done(),
                wants_frame: !self.splash.is_done(),
                done: self.splash.is_done(),
            },
            Overlay::Recorder => Report {
                active: self.recorder_overlay.is_enabled(),
                wants_frame: self.recorder_overlay.is_enabled(),
                done: false,
            },
            Overlay::Skeleton => Report {
                active: self.skeleton.enabled(),
                wants_frame: false,
                done: false,
            },
            Overlay::Measure => Report {
                active: self.measure.enabled,
                wants_frame: false,
                done: false,
            },
            Overlay::JellyCursor => Report {
                active: self.jelly_cursor.enabled,
                wants_frame: self.jelly_cursor.post_paint(),
                done: false,
            },
            Overlay::CursorTrail => Report {
                active: self.cursor_trail.enabled,
                wants_frame: self.cursor_trail.post_paint(),
                done: false,
            },
        }
    }

    /// What the overlays of the chain say of themselves, the topmost first.
    pub fn reports(&self) -> (r: Vec<Report>)
        ensures
            r@.len() == self.chain.links@.len(),
            forall|i: int|
                0 <= i < r@.len() ==> #[trigger] r@[i] == self.reported(
                    self.chain.links@[i].effect,
                ),
    {
        let mut reports: Vec<Report> = Vec::new();
        let mut i: usize = 0;
        while i < self.chain.links.len()
            invariant
                i <= self.chain.links@.len(),
                reports@.len() == i,
                forall|k: int|
                    0 <= k < i ==> #[trigger] reports@[k] == self.reported(
                        self.chain.links@[k].effect,
                    ),
            decreases self.chain.links@.len() - i,
        {
            reports.push(self.report(self.chain.links[i].effect));
            i += 1;
        }
        reports
    }

    /// Forgets what belongs to the workspace that is left. The caret of the
    /// next one is not reached from the caret of this one.
    pub fn reset_on_workspace_switch(&mut self, now: u64)
        requires
            old(self).wf(),
        ensures
            final(self).wf(),
            !final(self).skeleton.enabled,
            final(self).skeleton.parts@ == Seq::<SkeletonRect>::empty(),
            final(self).jelly_cursor == if old(self).jelly_cursor.enabled {
                JellyCursor { state: AnimState::Idle, ..old(self).jelly_cursor }
            } else {
                old(self).jelly_cursor
            },
            *final(self) == (EffectsState {
                skeleton: final(self).skeleton,
                jelly_cursor: final(self).jelly_cursor,
                ..*old(self)
            }),
    {
        self.skeleton.set_enabled(false);
        self.skeleton.clear();
        self.jelly_cursor.update(None, now);
    }
}

/// Where all links lie at a position or above, all are counted.
proof fn lemma_all_above(links: Seq<Link<Overlay>>, position: u8)
    requires
        forall|i: int| 0 <= i < links.len() ==> (#[trigger] links[i]).position >= position,
    ensures
        crate::effects::chain::at_least(links, position) == links.len(),
    decreases links.len(),
{
    if links.len() > 0 {
        assert(links[links.len() - 1].position >= position);
        assert forall|i: int| 0 <= i < links.drop_last().len() implies (
        #[trigger] links.drop_last()[i]).position >= position by {
            assert(links.drop_last()[i] == links[i]);
        }
        lemma_all_above(links.drop_last(), position);
    }
}

impl Default for EffectsState {
    /// The splash on top of everything, the trail of the pointer at the bottom.
    fn default() -> (r: EffectsState)
        ensures
            r.wf(),
            r.chain.links@ == seq![
                Overlay::Splash.link(),
                Overlay::Recorder.link(),
                Overlay::Skeleton.link(),
                Overlay::Measure.link(),
                Overlay::JellyCursor.link(),
                Overlay::CursorTrail.link(),
            ],
            !r.measure.enabled && !r.skeleton.enabled && !r.cursor_trail.enabled,
            r.jelly_cursor.enabled && r.jelly_cursor.state == AnimState::Idle,
            !r.splash.done && r.splash.start is None && r.splash.dismiss_time is None,
            r.recorder_overlay.started_at is None,
            r.skeleton.parts@ == Seq::<SkeletonRect>::empty(),
    {
        let mut chain: EffectChain<Overlay> = EffectChain::new();
        Self::append(&mut chain, Overlay::Splash);
        Self::append(&mut chain, Overlay::Recorder);
        Self::append(&mut chain, Overlay::Skeleton);
        Self::append(&mut chain, Overlay::Measure);
        Self::append(&mut chain, Overlay::JellyCursor);
        Self::append(&mut chain, Overlay::CursorTrail);
        EffectsState {
            chain,
            measure: MeasureOverlay::new(),
            skeleton: SkeletonOverlay::new(),
            splash: SplashScreen::new(),
            cursor_trail: CursorTrail::new(),
            jelly_cursor: JellyCursor::new(),
            recorder_overlay: RecorderOverlay::new(),
        }
    }
}

/// The splash lies above the recording indicator, then come the skeleton, the
/// measuring lines, the jelly cursor and the trail, each at a place of its own.
pub proof fn overlays_have_their_order(a: Overlay, b: Overlay, p: u8, q: u8)
    requires
        call_ensures(Overlay::chain_position, (a,), p),
        call_ensures(Overlay::chain_position, (b,), q),
    ensures
        p == q ==> a == b,
        a is Splash && !(b is Splash) ==> p > q,
        a is CursorTrail && !(b is CursorTrail) ==> p < q,
        a is Recorder && (b is Skeleton || b is Measure || b is JellyCursor) ==> p > q,
        a is Skeleton && (b is Measure || b is JellyCursor) ==> p > q,
        a is Measure && b is JellyCursor ==> p > q,
{
}

/// A compositor starts with all six overlays in their order: the splash shows and
/// the jelly cursor waits; everything else is off.
pub proof fn compositors_start_with_the_splash(s: EffectsState)
    requires
        call_ensures(<EffectsState as Default>::default, (), s),
    ensures
        s.chain.links@.len() == 6,
        s.chain.links@[0].effect == Overlay::Splash,
        s.chain.links@[1].effect == Overlay::Recorder,
        s.chain.links@[2].effect == Overlay::Skeleton,
        s.chain.links@[3].effect == Overlay::Measure,
        s.chain.links@[4].effect == Overlay::JellyCursor,
        s.chain.links@[5].effect == Overlay::CursorTrail,
        forall|i: int, j: int|
            0 <= i < j < 6 ==> (#[trigger] s.chain.links@[i]).position > (
            #[trigger] s.chain.links@[j]).position,
        !s.splash.done && s.splash.start is None && s.splash.dismiss_time is None,
        s.jelly_cursor.enabled && s.jelly_cursor.state is Idle,
        !s.measure.enabled && !s.skeleton.enabled && !s.cursor_trail.enabled,
        s.recorder_overlay.started_at is None,
        s.skeleton.parts@.len() == 0,
{
}

/// Each overlay of the chain reports for itself, in its place. It is active while
/// it is shown; only a moving one asks for frames, and only a splash that has
/// faded out is done.
pub proof fn overlays_report_for_themselves(s: EffectsState, r: Vec<Report>, i: int)
    requires
        call_ensures(EffectsState::reports, (&s,), r),
        0 <= i < s.chain.links@.len(),
    ensures
        r@.len() == s.chain.links@.len(),
        match s.chain.links@[i].effect {
            Overlay::Splash => r@[i].active == !s.splash.done && r@[i].wants_frame
                == !s.splash.done && r@[i].done == s.splash.done,
            Overlay::Recorder => r@[i].active == (s.recorder_overlay.started_at is Some)
                && r@[i].wants_frame == r@[i].active && !r@[i].done,
            Overlay::Skeleton => r@[i].active == s.skeleton.enabled && !r@[i].wants_frame
                && !r@[i].done,
            Overlay::Measure => r@[i].active == s.measure.enabled && !r@[i].wants_frame
                && !r@[i].done,
            Overlay::JellyCursor => r@[i].active == s.jelly_cursor.enabled && r@[i].wants_frame
                == (s.jelly_cursor.state is Animating) && !r@[i].done,
            Overlay::CursorTrail => r@[i].active == s.cursor_trail.enabled && r@[i].wants_frame
                == !s.cursor_trail.settled && !r@[i].done,
        },
{
    assert(r@[i] == s.reported(s.chain.links@[i].effect));
}

/// A report asked for alone is the one given in the overlay's place.
pub proof fn reports_agree(s: EffectsState, all: Vec<Report>, one: Report, i: int)
    requires
        call_ensures(EffectsState::reports, (&s,), all),
        0 <= i < s.chain.links@.len(),
        call_ensures(EffectsState::report, (&s, s.chain.links@[i].effect), one),
    ensures
        all@[i] == one,
{
    assert(all@[i] == s.reported(s.chain.links@[i].effect));
}

/// A workspace switch takes the skeleton away and makes the jelly cursor wait for
/// the next caret. The other overlays and the chain stay as they are.
pub proof fn switches_forget_the_caret(s: &mut EffectsState, now: u64)
    requires
        call_ensures(EffectsState::reset_on_workspace_switch, (s, now), ()),
    ensures
        !final(s).skeleton.enabled,
        final(s).skeleton.parts@.len() == 0,
        final(s).jelly_cursor.enabled == old(s).jelly_cursor.enabled,
        final(s).jelly_cursor.enabled ==> final(s).jelly_cursor.state is Idle,
        !final(s).jelly_cursor.enabled ==> final(s).jelly_cursor.state == old(
            s,
        ).jelly_cursor.state,
        final(s).jelly_cursor.color_solid == old(s).jelly_cursor.color_solid,
        final(s).chain == old(s).chain,
        final(s).measure == old(s).measure,
        final(s).splash == old(s).splash,
        final(s).cursor_trail == old(s).cursor_trail,
        final(s).recorder_overlay == old(s).recorder_overlay,
{
}

} // verus!
