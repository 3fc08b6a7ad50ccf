//! Where Emacs stands, and which surface a point hits.

use crate::geometry::Rect;
use crate::state::{EmskinState, OutgoingMessage, Request};
use crate::workspace::Workspace;
use vstd::prelude::*;

verus! {

/// The requests that move the Emacs frames of these workspaces to `area`.
pub open spec fn relayouts<S>(all: Map<u64, Workspace<S>>, ids: Seq<u64>, area: Rect) -> Seq<
    Request,
>
    decreases ids.len(),
{
    if ids.len() == 0 {
        seq![]
    } else {
        let before = relayouts(all, ids.drop_last(), area);
        match all[ids.last()].emacs_surface {
            Some(surface) => before.push(
                Request::Relayout { surface, workspace: ids.last(), area },
            ),
            None => before,
        }
    }
}

/// These are the keys of the map, in ascending order.
pub open spec fn ascending_keys<V>(m: Map<u64, V>, ids: Seq<u64>) -> bool {
    &&& forall|i: int, j: int| 0 <= i < j < ids.len() ==> ids[i] < ids[j]
    &&& forall|id: u64| ids.contains(id) <==> m.contains_key(id)
}

impl<S> EmskinState<S> {
    /// Moves the Emacs frames of all workspaces to `area`, what layer surfaces
    /// leave of the output, and tells Emacs its new size. There is no area
    /// without an output.
    pub fn relayout_emacs(&mut self, area: Option<Rect>) -> (r: Vec<Request>)
        requires
            old(self).workspaces.wf(),
        ensures
            match area {
                Some(a) => {
                    &&& exists|ids: Seq<u64>|
                        ascending_keys(old(self).workspaces.all(), ids) && r@ == #[trigger] relayouts(
                            old(self).workspaces.all(),
                            ids,
                            a,
                        ).push(
                            Request::Send(OutgoingMessage::SurfaceSize { width: a.w, height: a.h }),
                        )
                    &&& *final(self) == (EmskinState { needs_redraw: true, ..*old(self) })
                },
                None => r@ == Seq::<Request>::empty() && *final(self) == *old(self),
            },
    {
        let mut requests: Vec<Request> = Vec::new();
        let area = match area {
            Some(area) => area,
            None => return requests,
        };
        let ids = self.workspaces.all_ids();
        let ghost all = self.workspaces.all();
        let mut i: usize = 0;
        assert(ids@.take(0) =~= seq![]);
        while i < ids.len()
            invariant
                i <= ids@.len(),
                all == self.workspaces.all(),
                !self.workspaces.inactive@.contains_key(self.workspaces.active_id),
                forall|id: u64| ids@.contains(id) <==> all.contains_key(id),
                requests@ == relayouts(all, ids@.take(i as int), area),
            decreases ids@.len() - i,
        {
            let id: u64 = ids[i];
            proof {
                assert(ids@.take(i + 1).drop_last() =~= ids@.take(i as int));
                assert(ids@.contains(id));
            }
            let emacs = if id == self.workspaces.active_id {
                self.workspaces.active.emacs_surface
            } else {
                match self.workspaces.inactive.get(&id) {
                    Some(ws) => ws.emacs_surface,
                    None => None,
                }
            };
            match emacs {
                Some(surface) => {
                    requests.push(Request::Relayout { surface, workspace: id, area });
                },
                None => {},
            }
            i += 1;
        }
        assert(ids@.take(i as int) =~= ids@);
        assert(ascending_keys(all, ids@));
        requests.push(
            Request::Send(OutgoingMessage::SurfaceSize { width: area.w, height: area.h }),
        );
        self.needs_redraw = true;
        requests
    }
}

/// What a point hits. A mirror of a window lies above everything, and where the
/// point is on one, only the window it shows can be hit. Below it come the
/// layer surfaces, given from the top, then the windows.
pub open spec fn hit<T>(mirror: Option<Option<T>>, layers: Seq<Option<T>>, window: Option<T>) -> Option<
    T,
>
    decreases layers.len(),
{
    match mirror {
        Some(shown) => shown,
        None => if layers.len() == 0 {
            window
        } else if layers[0] is Some {
            layers[0]
        } else {
            hit(None, layers.skip(1), window)
        },
    }
}

/// What a point hits: the window shown by a mirror, the first layer surface, or
/// the window.
pub fn surface_under<T: Copy>(
    mirror: Option<Option<T>>,
    layers: &[Option<T>],
    window: Option<T>,
) -> (r: Option<T>)
    ensures
        r == hit(mirror, layers@, window),
{
    if mirror.is_some() {
        return mirror.unwrap();
    }
    let mut i: usize = 0;
    assert(layers@.skip(0) =~= layers@);
    while i < layers.len()
        invariant
            mirror is None,
            i <= layers@.len(),
            hit(None, layers@, window) == hit(None, layers@.skip(i as int), window),
        decreases layers@.len() - i,
    {
        if layers[i].is_some() {
            return layers[i];
        }
        assert(layers@.skip(i as int).skip(1) =~= layers@.skip(i + 1));
        i += 1;
    }
    window
}

/// What gets the keyboard focus for a surface: the layer surface it belongs to,
/// else the window, else the popup.
pub fn focus_target_for_surface<T: Copy>(
    layer: Option<T>,
    window: Option<T>,
    popup: Option<T>,
) -> (r: Option<T>)
    ensures
        r == if layer is Some {
            layer
        } else if window is Some {
            window
        } else {
            popup
        },
{
    if layer.is_some() {
        layer
    } else if window.is_some() {
        window
    } else {
        popup
    }
}

// ---------------------------------------------------------------------------
// What the layout promises
// ---------------------------------------------------------------------------

/// Every frame of Emacs, whichever workspace it is in, is moved to the area, and
/// nothing else is; then Emacs is told the size. Without an output nothing
/// happens.
pub proof fn all_frames_fill_the_area<S>(
    s: &mut EmskinState<S>,
    area: Option<Rect>,
    r: Vec<Request>,
)
    requires
        call_ensures(EmskinState::<S>::relayout_emacs, (s, area), r),
        old(s).workspaces.wf(),
    ensures
        area is None ==> r@.len() == 0 && *final(s) == *old(s),
        area matches Some(a) ==> {
            let here = old(s).workspaces;
            &&& r@.len() > 0
            &&& r@[r@.len() - 1] == Request::Send(
                OutgoingMessage::SurfaceSize { width: a.w, height: a.h },
            )
            &&& here.active.emacs_surface matches Some(surface) ==> r@.contains(
                Request::Relayout { surface, workspace: here.active_id, area: a },
            )
            &&& forall|id: u64| #[trigger]
                here.inactive@.contains_key(id) && here.inactive@[id].emacs_surface is Some
                    ==> r@.contains(
                    Request::Relayout {
                        surface: here.inactive@[id].emacs_surface->0,
                        workspace: id,
                        area: a,
                    },
                )
            &&& forall|k: int|
                0 <= k < r@.len() - 1 ==> (#[trigger] r@[k] matches Request::Relayout {
                    surface,
                    workspace,
                    area,
                } && area == a && (if workspace == here.active_id {
                    here.active.emacs_surface == Some(surface)
                } else {
                    here.inactive@.contains_key(workspace)
                        && here.inactive@[workspace].emacs_surface == Some(surface)
                }))
            &&& final(s).needs_redraw
        },
{
    if let Some(a) = area {
        let all = old(s).workspaces.all();
        let ids = choose|ids: Seq<u64>|
            ascending_keys(all, ids) && r@ == #[trigger] relayouts(all, ids, a).push(
                Request::Send(OutgoingMessage::SurfaceSize { width: a.w, height: a.h }),
            );
        let moves = relayouts(all, ids, a);
        lemma_relayouts(all, ids, a);
        assert(r@.drop_last() =~= moves);
        assert forall|x: Request| moves.contains(x) implies r@.contains(x) by {
            assert(r@[moves.index_of(x)] == x);
        }
        assert(all.contains_key(old(s).workspaces.active_id));
        assert(ids.contains(old(s).workspaces.active_id));
        assert forall|id: u64| #[trigger] old(s).workspaces.inactive@.contains_key(id) implies
            ids.contains(id) && all[id] == old(s).workspaces.inactive@[id] by {
            assert(all.contains_key(id));
        }
        assert forall|k: int| 0 <= k < moves.len() implies #[trigger] r@[k] == moves[k] by {}
        assert forall|id: u64| #[trigger] ids.contains(id) implies all.contains_key(id) by {}
    }
}

pub proof fn lemma_relayouts<S>(all: Map<u64, Workspace<S>>, ids: Seq<u64>, area: Rect)
    ensures
        forall|id: u64| #[trigger]
            ids.contains(id) && all[id].emacs_surface is Some ==> relayouts(
                all,
                ids,
                area,
            ).contains(
                Request::Relayout { surface: all[id].emacs_surface->0, workspace: id, area },
            ),
        forall|k: int|
            0 <= k < relayouts(all, ids, area).len() ==> (#[trigger] relayouts(
                all,
                ids,
                area,
            )[k] matches Request::Relayout { surface, workspace, area: to } && to == area
                && ids.contains(workspace) && all[workspace].emacs_surface == Some(surface)),
    decreases ids.len(),
{
    if ids.len() > 0 {
        let rest = ids.drop_last();
        lemma_relayouts(all, rest, area);
        let moves = relayouts(all, ids, area);
        let before = relayouts(all, rest, area);
        assert forall|x: Request| before.contains(x) implies moves.contains(x) by {
            assert(moves[before.index_of(x)] == x);
        }
        assert(ids[ids.len() - 1] == ids.last());
        assert forall|id: u64| #[trigger] ids.contains(id) implies id == ids.last()
            || rest.contains(id) by {
            let k = ids.index_of(id);
            if k < rest.len() {
                assert(rest[k] == id);
            }
        }
        assert forall|id: u64| rest.contains(id) implies ids.contains(id) by {
            assert(ids[rest.index_of(id)] == id);
        }
        if let Some(surface) = all[ids.last()].emacs_surface {
            assert(moves.last() == (Request::Relayout { surface, workspace: ids.last(), area }));
        }
    }
}

/// A mirror hides what lies below it, even where it shows nothing; else the
/// topmost layer surface at the point is hit, and the window only where no layer
/// surface is.
pub proof fn what_lies_above_is_hit<T: Copy>(
    mirror: Option<Option<T>>,
    layers: &[Option<T>],
    window: Option<T>,
    r: Option<T>,
)
    requires
        call_ensures(surface_under::<T>, (mirror, layers, window), r),
    ensures
        mirror matches Some(shown) ==> r == shown,
        mirror is None && (forall|i: int|
            0 <= i < layers@.len() ==> (#[trigger] layers@[i]) is None) ==> r == window,
        mirror is None ==> forall|i: int|
            0 <= i < layers@.len() && (#[trigger] layers@[i]) is Some && (forall|j: int|
                0 <= j < i ==> (#[trigger] layers@[j]) is None) ==> r == layers@[i],
{
    if mirror is None {
        lemma_hit(layers@, window);
    }
}

proof fn lemma_hit<T>(layers: Seq<Option<T>>, window: Option<T>)
    ensures
        (forall|i: int| 0 <= i < layers.len() ==> (#[trigger] layers[i]) is None) ==> hit(
            None,
            layers,
            window,
        ) == window,
        forall|i: int|
            0 <= i < layers.len() && (#[trigger] layers[i]) is Some && (forall|j: int|
                0 <= j < i ==> (#[trigger] layers[j]) is None) ==> hit(None, layers, window)
                == layers[i],
    decreases layers.len(),
{
    if layers.len() > 0 && layers[0] is None {
        let rest = layers.skip(1);
        lemma_hit(rest, window);
        assert forall|i: int| 0 <= i < rest.len() implies #[trigger] rest[i] == layers[i + 1] by {}
        assert forall|i: int|
            0 <= i < layers.len() && (#[trigger] layers[i]) is Some && (forall|j: int|
                0 <= j < i ==> (#[trigger] layers[j]) is None) implies hit(None, layers, window)
            == layers[i] by {
            assert(rest[i - 1] == layers[i]);
            assert forall|j: int| 0 <= j < i - 1 implies (#[trigger] rest[j]) is None by {
                assert(layers[j + 1] is None);
            }
        }
        if forall|i: int| 0 <= i < layers.len() ==> (#[trigger] layers[i]) is None {
            assert forall|i: int| 0 <= i < rest.len() implies (#[trigger] rest[i]) is None by {
                assert(layers[i + 1] is None);
            }
        }
    }
}

/// The keyboard goes to the layer surface that a surface belongs to, else to its
/// window, else to its popup.
pub proof fn layers_come_before_windows<T: Copy>(
    layer: Option<T>,
    window: Option<T>,
    popup: Option<T>,
    r: Option<T>,
)
    requires
        call_ensures(focus_target_for_surface::<T>, (layer, window, popup), r),
    ensures
        layer is Some ==> r == layer,
        layer is None && window is Some ==> r == window,
        layer is None && window is None ==> r == popup,
{
}

proof fn lemma_relayouts_ascend<S>(all: Map<u64, Workspace<S>>, ids: Seq<u64>, area: Rect)
    requires
        forall|i: int, j: int| 0 <= i < j < ids.len() ==> ids[i] < ids[j],
    ensures
        forall|k: int, l: int|
            0 <= k < l < relayouts(all, ids, area).len() ==> (#[trigger] relayouts(
                all,
                ids,
                area,
            )[k])->Relayout_workspace < (#[trigger] relayouts(
                all,
                ids,
                area,
            )[l])->Relayout_workspace,
    decreases ids.len(),
{
    if ids.len() > 0 {
        let rest = ids.drop_last();
        assert forall|i: int, j: int| 0 <= i < j < rest.len() implies rest[i] < rest[j] by {
            assert(ids[i] < ids[j]);
        }
        lemma_relayouts_ascend(all, rest, area);
        lemma_relayouts(all, rest, area);
        let before = relayouts(all, rest, area);
        let moves = relayouts(all, ids, area);
        assert forall|k: int| 0 <= k < before.len() implies (
        #[trigger] before[k])->Relayout_workspace < ids.last() by {
            let w = before[k]->Relayout_workspace;
            assert(rest.contains(w));
            let i = rest.index_of(w);
            assert(ids[i] < ids[ids.len() - 1]);
        }
        assert forall|k: int, l: int| 0 <= k < l < moves.len() implies (
        #[trigger] moves[k])->Relayout_workspace < (#[trigger] moves[l])->Relayout_workspace by {
            if l < before.len() {
                assert(moves[k] == before[k] && moves[l] == before[l]);
            } else {
                assert(moves[k] == before[k]);
                assert(before[k]->Relayout_workspace < ids.last());
            }
        }
    }
}

/// The frames are moved once each, in the order of their workspaces.
pub proof fn frames_are_moved_in_order<S>(
    s: &mut EmskinState<S>,
    area: Rect,
    r: Vec<Request>,
    k: int,
    l: int,
)
    requires
        call_ensures(EmskinState::<S>::relayout_emacs, (s, Some(area)), r),
        0 <= k < l < r@.len() - 1,
    ensures
        r@[k] is Relayout,
        r@[l] is Relayout,
        r@[k]->Relayout_workspace < r@[l]->Relayout_workspace,
{
    let all = old(s).workspaces.all();
    let ids = choose|ids: Seq<u64>|
        ascending_keys(all, ids) && r@ == #[trigger] relayouts(all, ids, area).push(
            Request::Send(OutgoingMessage::SurfaceSize { width: area.w, height: area.h }),
        );
    let moves = relayouts(all, ids, area);
    lemma_relayouts(all, ids, area);
    lemma_relayouts_ascend(all, ids, area);
    assert(r@[k] == moves[k] && r@[l] == moves[l]);
}

} // verus!
