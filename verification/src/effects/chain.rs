//! The chain of overlays: the order they are painted in, and which of them run.

use vstd::prelude::*;

verus! {

/// An overlay with its place in the chain. A higher one is painted on top.
#[derive(Debug)]
pub struct Link<T> {
    pub effect: T,
    pub position: u8,
}

/// The overlays, the topmost first.
#[derive(Debug)]
pub struct EffectChain<T> {
    pub links: Vec<Link<T>>,
}

/// What an overlay says of itself after a frame.
#[derive(Debug, Clone, Copy, PartialEq, Eq, Structural)]
pub struct Report {
    /// It took part in the frame.
    pub active: bool,
    /// It asks for another frame.
    pub wants_frame: bool,
    /// It is done for good.
    pub done: bool,
}

/// What a frame leads to.
#[derive(Debug, Clone, Copy, PartialEq, Eq, Structural)]
pub struct RenderWorkspaceOutcome {
    /// An active overlay asked for another frame.
    pub want_redraw: bool,
}

/// Higher positions come first.
pub open spec fn descending<T>(links: Seq<Link<T>>) -> bool {
    forall|i: int, j: int|
        0 <= i < j < links.len() ==> (#[trigger] links[i]).position >= (
        #[trigger] links[j]).position
}

/// How many links have at least this position.
pub open spec fn at_least<T>(links: Seq<Link<T>>, position: u8) -> nat
    decreases links.len(),
{
    if links.len() == 0 {
        0
    } else if links.last().position >= position {
        at_least(links.drop_last(), position) + 1
    } else {
        at_least(links.drop_last(), position)
    }
}

/// The places of the active overlays among the first `n`.
pub open spec fn active_places(active: Seq<bool>, n: int) -> Seq<usize>
    decreases n,
{
    if n <= 0 {
        seq![]
    } else if active[n - 1] {
        active_places(active, n - 1).push((n - 1) as usize)
    } else {
        active_places(active, n - 1)
    }
}

/// The links whose overlay is not done.
pub open spec fn kept<T>(links: Seq<Link<T>>, reports: Seq<Report>) -> Seq<Link<T>>
    decreases links.len(),
{
    if links.len() == 0 {
        seq![]
    } else if reports[links.len() - 1].done {
        kept(links.drop_last(), reports)
    } else {
        kept(links.drop_last(), reports).push(links.last())
    }
}

proof fn lemma_at_least<T>(links: Seq<Link<T>>, position: u8, n: int)
    requires
        descending(links),
        0 <= n <= links.len(),
        forall|i: int| 0 <= i < n ==> (#[trigger] links[i]).position >= position,
        forall|i: int| n <= i < links.len() ==> (#[trigger] links[i]).position < position,
    ensures
        at_least(links, position) == n,
    decreases links.len(),
{
    if links.len() > 0 {
        let m = if n == links.len() {
            n - 1
        } else {
            n
        };
        assert(descending(links.drop_last()));
        lemma_at_least(links.drop_last(), position, m);
    }
}

impl<T> EffectChain<T> {
    pub open spec fn wf(&self) -> bool {
        descending(self.links@)
    }

    pub fn new() -> (r: EffectChain<T>)
        ensures
            r.wf(),
            r.links@ == Seq::<Link<T>>::empty(),
    {
        EffectChain { links: Vec::new() }
    }

    /// Adds an overlay: below all of its position and above, on top of the
    /// others.
    pub fn register(&mut self, effect: T, position: u8)
        requires
            old(self).wf(),
        ensures
            final(self).wf(),
            final(self).links@ == old(self).links@.insert(
                at_least(old(self).links@, position) as int,
                Link { effect, position },
            ),
    {
        let mut at: usize = 0;
        while at < self.links.len() && self.links[at].position >= position
            invariant
                at <= self.links@.len(),
                forall|i: int| 0 <= i < at ==> (#[trigger] self.links@[i]).position >= position,
            decreases self.links@.len() - at,
        {
            at += 1;
        }
        let ghost before = self.links@;
        proof {
            lemma_at_least(before, position, at as int);
        }
        self.links.insert(at, Link { effect, position });
        assert forall|i: int, j: int| 0 <= i < j < self.links@.len() implies (
        #[trigger] self.links@[i]).position >= (#[trigger] self.links@[j]).position by {
            let p = if i < at {
                i
            } else {
                i - 1
            };
            let q = if j < at {
                j
            } else {
                j - 1
            };
            if i != at && j != at {
                assert(self.links@[i] == before[p] && self.links@[j] == before[q]);
            }
        }
    }

    /// The overlays to run for a frame, in order: the active ones, from the
    /// top.
    pub fn active(&self, active: &[bool]) -> (r: Vec<usize>)
        requires
            active@.len() == self.links@.len(),
        ensures
            r@ == active_places(active@, self.links@.len() as int),
    {
        let mut places: Vec<usize> = Vec::new();
        let mut i: usize = 0;
        while i < active.len()
            invariant
                i <= active@.len(),
                places@ == active_places(active@, i as int),
            decreases active@.len() - i,
        {
            if active[i] {
                places.push(i);
            }
            i += 1;
        }
        places
    }

    /// Ends a frame: overlays that are done leave the chain. Another frame is
    /// wanted where an active one asks for it.
    pub fn post_paint(&mut self, reports: &[Report]) -> (r: RenderWorkspaceOutcome)
        requires
            old(self).wf(),
            reports@.len() == old(self).links@.len(),
        ensures
            final(self).wf(),
            final(self).links@ == kept(old(self).links@, reports@),
            r.want_redraw == exists|i: int|
                0 <= i < reports@.len() && (#[trigger] reports@[i]).active
                    && reports@[i].wants_frame,
    {
        let ghost before = self.links@;
        let mut want_redraw = false;
        let mut i: usize = 0;
        while i < reports.len()
            invariant
                i <= reports@.len(),
                want_redraw == exists|k: int|
                    0 <= k < i && (#[trigger] reports@[k]).active && reports@[k].wants_frame,
            decreases reports@.len() - i,
        {
            if reports[i].active && reports[i].wants_frame {
                want_redraw = true;
                assert(reports@[i as int].active);
            }
            i += 1;
        }
        let mut left: Vec<Link<T>> = Vec::new();
        let mut n: usize = self.links.len();
        proof {
            assert(before.take(n as int) =~= before);
            assert(kept(before, reports@) + left@.reverse() =~= kept(before, reports@));
        }
        while n > 0
            invariant
                n <= before.len() == reports@.len(),
                self.links@ == before.take(n as int),
                kept(before, reports@) == kept(before.take(n as int), reports@) + left@.reverse(),
            decreases n,
        {
            assert(before.take(n as int).drop_last() =~= before.take(n - 1));
            let link = self.links.pop();
            n -= 1;
            match link {
                Some(link) => {
                    if !reports[n].done {
                        let ghost so_far = left@;
                        left.push(link);
                        assert(left@.reverse() =~= seq![link] + so_far.reverse());
                        assert(kept(before.take(n as int), reports@).push(link)
                            + so_far.reverse() =~= kept(before.take(n as int), reports@)
                            + left@.reverse());
                    }
                },
                None => {},
            }
        }
        proof {
            assert(kept(before, reports@) =~= left@.reverse());
            lemma_kept_descending(before, reports@);
        }
        let ghost rest = left@;
        while left.len() > 0
            invariant
                self.links@ + left@.reverse() == rest.reverse(),
            decreases left@.len(),
        {
            let ghost so_far = left@;
            let ghost here = self.links@;
            let link = left.pop();
            match link {
                Some(link) => {
                    self.links.push(link);
                    assert(so_far.reverse() =~= seq![link] + left@.reverse());
                    assert(self.links@ + left@.reverse() =~= here + so_far.reverse());
                },
                None => {},
            }
        }
        assert(self.links@ =~= rest.reverse());
        RenderWorkspaceOutcome { want_redraw }
    }
}

/// Leaving links out keeps the order of the others.
proof fn lemma_kept_descending<T>(links: Seq<Link<T>>, reports: Seq<Report>)
    requires
        descending(links),
        reports.len() >= links.len(),
    ensures
        descending(kept(links, reports)),
        forall|i: int|
            0 <= i < kept(links, reports).len() ==> exists|j: int|
                0 <= j < links.len() && #[trigger] links[j] == #[trigger] kept(links, reports)[i],
    decreases links.len(),
{
    if links.len() > 0 {
        let rest = links.drop_last();
        lemma_kept_descending(rest, reports);
        let k = kept(rest, reports);
        assert forall|i: int| 0 <= i < kept(links, reports).len() implies exists|j: int|
            0 <= j < links.len() && #[trigger] links[j] == #[trigger] kept(links, reports)[i] by {
            if i < k.len() {
                assert(kept(links, reports)[i] == k[i]);
                let j = choose|j: int| 0 <= j < rest.len() && #[trigger] rest[j] == k[i];
                assert(links[j] == kept(links, reports)[i]);
            } else {
                assert(links[links.len() - 1] == kept(links, reports)[i]);
            }
        }
        assert forall|i: int, j: int| 0 <= i < j < kept(links, reports).len() implies (
        #[trigger] kept(links, reports)[i]).position >= (
        #[trigger] kept(links, reports)[j]).position by {
            if j < k.len() {
                assert(kept(links, reports)[i] == k[i] && kept(links, reports)[j] == k[j]);
            } else {
                let p = choose|p: int| 0 <= p < rest.len() && #[trigger] rest[p] == k[i];
                assert(links[p] == k[i]);
            }
        }
    }
}

/// Of two overlays with one position, the one registered first is painted on
/// top.
pub proof fn first_registered_is_on_top<T>(links: Seq<Link<T>>, first: T, second: T, position: u8)
    requires
        descending(links),
    ensures
        ({
            let at = at_least(links, position) as int;
            let one = links.insert(at, Link { effect: first, position });
            let two = one.insert(
                at_least(one, position) as int,
                Link { effect: second, position },
            );
            &&& two[at] == (Link { effect: first, position })
            &&& two[at + 1] == (Link { effect: second, position })
        }),
{
    lemma_at_least_bounds(links, position);
    let at = at_least(links, position) as int;
    let one = links.insert(at, Link { effect: first, position });
    assert forall|i: int, j: int| 0 <= i < j < one.len() implies (
    #[trigger] one[i]).position >= (#[trigger] one[j]).position by {
        let p = if i < at {
            i
        } else {
            i - 1
        };
        let q = if j < at {
            j
        } else {
            j - 1
        };
        if i != at && j != at {
            assert(one[i] == links[p] && one[j] == links[q]);
        } else if i == at {
            assert(one[j] == links[q]);
        } else {
            assert(one[i] == links[p]);
        }
    }
    assert forall|i: int| 0 <= i < at + 1 implies (#[trigger] one[i]).position >= position by {
        if i < at {
            assert(one[i] == links[i]);
        }
    }
    assert forall|i: int| at + 1 <= i < one.len() implies (#[trigger] one[i]).position
        < position by {
        assert(one[i] == links[i - 1]);
    }
    lemma_at_least(one, position, at + 1);
}

/// Links in order: those of at least a position come first.
proof fn lemma_at_least_bounds<T>(links: Seq<Link<T>>, position: u8)
    requires
        descending(links),
    ensures
        at_least(links, position) <= links.len(),
        forall|i: int|
            0 <= i < at_least(links, position) ==> (#[trigger] links[i]).position >= position,
        forall|i: int|
            at_least(links, position) <= i < links.len() ==> (#[trigger] links[i]).position
                < position,
    decreases links.len(),
{
    if links.len() > 0 {
        let rest = links.drop_last();
        assert(descending(rest));
        lemma_at_least_bounds(rest, position);
        let n = at_least(rest, position) as int;
        assert forall|i: int| 0 <= i < rest.len() implies #[trigger] links[i] == rest[i] by {}
        if links.last().position >= position && n < rest.len() {
            assert(links[n].position >= links[links.len() - 1].position);
            assert(rest[n].position < position);
        }
    }
}

/// A fresh chain is empty, and registering an overlay puts it below every one of
/// its position or a higher one and above every lower one. The others keep
/// their order and what they are.
pub proof fn registering_keeps_the_order<T>(
    chain: &mut EffectChain<T>,
    effect: T,
    position: u8,
    fresh: EffectChain<T>,
)
    requires
        call_ensures(EffectChain::<T>::new, (), fresh),
        call_ensures(EffectChain::<T>::register, (chain, effect, position), ()),
        forall|i: int, j: int|
            0 <= i < j < old(chain).links@.len() ==> (#[trigger] old(chain).links@[i]).position
                >= (#[trigger] old(chain).links@[j]).position,
    ensures
        fresh.links@.len() == 0,
        final(chain).links@.len() == old(chain).links@.len() + 1,
        exists|at: int|
            {
                &&& 0 <= at < final(chain).links@.len()
                &&& (#[trigger] final(chain).links@[at]).effect == effect
                &&& final(chain).links@[at].position == position
                &&& final(chain).links@.remove(at) == old(chain).links@
                &&& forall|i: int|
                    0 <= i < at ==> (#[trigger] final(chain).links@[i]).position >= position
                &&& forall|i: int|
                    at < i < final(chain).links@.len() ==> (
                    #[trigger] final(chain).links@[i]).position < position
            },
{
    let before = old(chain).links@;
    let after = final(chain).links@;
    lemma_at_least_bounds(before, position);
    let at = at_least(before, position) as int;
    assert(after == before.insert(at, Link { effect, position }));
    assert(after[at].effect == effect);
    assert(after.remove(at) =~= before);
    assert forall|i: int| 0 <= i < at implies (#[trigger] after[i]).position >= position by {
        assert(after[i] == before[i]);
    }
    assert forall|i: int| at < i < after.len() implies (#[trigger] after[i]).position
        < position by {
        assert(after[i] == before[i - 1]);
    }
}

proof fn lemma_active_places(active: Seq<bool>, n: int)
    requires
        0 <= n <= active.len() <= usize::MAX,
    ensures
        forall|k: int|
            0 <= k < active_places(active, n).len() ==> (#[trigger] active_places(active, n)[k])
                < n && active[active_places(active, n)[k] as int],
        forall|k: int, l: int|
            0 <= k < l < active_places(active, n).len() ==> (#[trigger] active_places(
                active,
                n,
            )[k]) < (#[trigger] active_places(active, n)[l]),
        forall|i: int|
            0 <= i < n && #[trigger] active[i] ==> active_places(active, n).contains(i as usize),
    decreases n,
{
    if n > 0 {
        lemma_active_places(active, n - 1);
        let before = active_places(active, n - 1);
        let after = active_places(active, n);
        assert forall|i: int| 0 <= i < n && #[trigger] active[i] implies after.contains(
            i as usize,
        ) by {
            if i == n - 1 {
                assert(after[after.len() - 1] == i as usize);
            } else {
                let k = choose|k: int| 0 <= k < before.len() && before[k] == i as usize;
                assert(after[k] == i as usize);
            }
        }
    }
}

/// A frame runs every active overlay once, the topmost first, and no other.
pub proof fn active_overlays_run_from_the_top<T>(
    chain: EffectChain<T>,
    active: &[bool],
    r: Vec<usize>,
)
    requires
        call_ensures(EffectChain::<T>::active, (&chain, active), r),
        active@.len() == chain.links@.len(),
    ensures
        forall|k: int|
            0 <= k < r@.len() ==> (#[trigger] r@[k]) < active@.len() && active@[r@[k] as int],
        forall|k: int, l: int| 0 <= k < l < r@.len() ==> #[trigger] r@[k] < #[trigger] r@[l],
        forall|i: int| 0 <= i < active@.len() && #[trigger] active@[i] ==> r@.contains(i as usize),
{
    assert(active.len() == active@.len());
    lemma_active_places(active@, active@.len() as int);
}

/// Where nothing more is done, all links are kept.
proof fn lemma_kept_all<T>(links: Seq<Link<T>>, reports: Seq<Report>)
    requires
        reports.len() >= links.len(),
        forall|i: int| 0 <= i < links.len() ==> !(#[trigger] reports[i]).done,
    ensures
        kept(links, reports) == links,
    decreases links.len(),
{
    if links.len() > 0 {
        lemma_kept_all(links.drop_last(), reports);
        assert(!reports[links.len() - 1].done);
        assert(kept(links, reports) =~= links);
    }
}

/// What is kept stood in the chain, and what is not done is kept; the order
/// stays.
proof fn lemma_kept_places<T>(links: Seq<Link<T>>, reports: Seq<Report>) -> (places: Seq<int>)
    requires
        reports.len() >= links.len(),
    ensures
        places.len() == kept(links, reports).len(),
        forall|k: int|
            0 <= k < places.len() ==> 0 <= #[trigger] places[k] < links.len()
                && !reports[places[k]].done && kept(links, reports)[k] == links[places[k]],
        forall|k: int, l: int| 0 <= k < l < places.len() ==> #[trigger] places[k]
            < #[trigger] places[l],
        forall|i: int| 0 <= i < links.len() && !(#[trigger] reports[i]).done ==> places.contains(i),
    decreases links.len(),
{
    if links.len() == 0 {
        seq![]
    } else {
        let rest = links.drop_last();
        let before = lemma_kept_places(rest, reports);
        let n = links.len() - 1;
        if reports[n].done {
            before
        } else {
            let places = before.push(n);
            assert forall|i: int| 0 <= i < links.len() && !(
            #[trigger] reports[i]).done implies places.contains(i) by {
                if i == n {
                    assert(places[before.len() as int] == n);
                } else {
                    let k = choose|k: int| 0 <= k < before.len() && before[k] == i;
                    assert(places[k] == i);
                }
            }
            places
        }
    }
}

/// After a frame exactly the overlays that are done have left the chain, and the
/// others stand in the order they stood in. Another frame is asked for where an
/// active overlay asks for one, and only then.
pub proof fn done_overlays_leave<T>(
    chain: &mut EffectChain<T>,
    reports: &[Report],
    r: RenderWorkspaceOutcome,
)
    requires
        call_ensures(EffectChain::<T>::post_paint, (chain, reports), r),
        reports@.len() == old(chain).links@.len(),
    ensures
        exists|places: Seq<int>|
            {
                &&& #[trigger] places.len() == final(chain).links@.len()
                &&& forall|k: int|
                    0 <= k < places.len() ==> 0 <= #[trigger] places[k] < reports@.len()
                        && !reports@[places[k]].done && final(chain).links@[k] == old(
                        chain,
                    ).links@[places[k]]
                &&& forall|k: int, l: int|
                    0 <= k < l < places.len() ==> #[trigger] places[k] < #[trigger] places[l]
                &&& forall|i: int|
                    0 <= i < reports@.len() && !(#[trigger] reports@[i]).done ==> places.contains(i)
            },
        (forall|i: int| 0 <= i < reports@.len() ==> !(#[trigger] reports@[i]).done) ==> final(chain).links@ == old(chain).links@,
        (forall|i: int|
            0 <= i < reports@.len() ==> !((#[trigger] reports@[i]).active
                && reports@[i].wants_frame)) <==> !r.want_redraw,
{
    let places = lemma_kept_places(old(chain).links@, reports@);
    assert(places.len() == final(chain).links@.len());
    if forall|i: int| 0 <= i < reports@.len() ==> !(#[trigger] reports@[i]).done {
        lemma_kept_all(old(chain).links@, reports@);
    }
}

} // verus!
