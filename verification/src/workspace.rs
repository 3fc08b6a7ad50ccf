//! Workspaces: each Emacs frame is one.
//!
//! The active workspace's contents stand inline; the others are kept aside,
//! keyed by their identifier, until they are switched to. `S` is what a
//! workspace's windows are laid out in.

use crate::input::SurfaceId;
use std::collections::HashMap;
use vstd::prelude::*;
use vstd::std_specs::hash::{spec_keys_iter, spec_values_iter};
use vstd::std_specs::iter::IteratorSpec;

verus! {

/// The contents of a workspace.
#[derive(Debug)]
pub struct Workspace<S> {
    pub space: S,
    pub emacs_surface: Option<SurfaceId>,
    /// Display name for the bar, from the Emacs frame title.
    pub name: String,
}

#[derive(Debug)]
pub struct WorkspaceState<S> {
    /// The contents of the active workspace.
    pub active: Workspace<S>,
    /// The other workspaces.
    pub inactive: HashMap<u64, Workspace<S>>,
    /// The identifier of the active workspace.
    pub active_id: u64,
    /// The next identifier to hand out.
    pub next_id: u64,
}

/// `HashMap::get_mut`: a reference to the value of `key`, through which it can
/// be replaced; the other entries stay as they are.
#[verifier::external_body]
fn entry_mut<'a, V>(map: &'a mut HashMap<u64, V>, key: u64) -> (r: Option<&'a mut V>)
    ensures
        match r {
            Some(v) => {
                &&& old(map)@.contains_key(key)
                &&& *v == old(map)@[key]
                &&& final(map)@ == old(map)@.insert(key, *final(v))
            },
            None => !old(map)@.contains_key(key) && final(map)@ == old(map)@,
        },
{
    map.get_mut(&key)
}

/// The active workspace and the ones kept aside.
#[verifier::ext_equal]
pub ghost struct Arrangement<S> {
    pub active_id: u64,
    pub active: Workspace<S>,
    pub inactive: Map<u64, Workspace<S>>,
}

impl<S> Arrangement<S> {
    /// The arrangement after a switch to `target`, where that is kept aside.
    pub open spec fn switched(self, target: u64) -> Arrangement<S> {
        Arrangement {
            active_id: target,
            active: self.inactive[target],
            inactive: self.inactive.remove(target).insert(self.active_id, self.active),
        }
    }
}

/// Switching to another workspace and back gives the arrangement back.
pub proof fn switching_back_restores<S>(a: Arrangement<S>, target: u64)
    requires
        a.inactive.contains_key(target),
        !a.inactive.contains_key(a.active_id),
    ensures
        a.switched(target).inactive.contains_key(a.active_id),
        a.switched(target).switched(a.active_id) == a,
{
    assert(a.switched(target).switched(a.active_id).inactive =~= a.inactive);
}

impl<S> WorkspaceState<S> {
    /// The active workspace and the ones kept aside.
    pub open spec fn arrangement(&self) -> Arrangement<S> {
        Arrangement {
            active_id: self.active_id,
            active: self.active,
            inactive: self.inactive@,
        }
    }

    /// All workspaces by identifier, the active one among them.
    pub open spec fn all(&self) -> Map<u64, Workspace<S>> {
        self.inactive@.insert(self.active_id, self.active)
    }

    /// The active workspace is not also kept aside, and identifiers in use are
    /// older than the next one.
    pub open spec fn wf(&self) -> bool {
        &&& !self.inactive@.contains_key(self.active_id)
        &&& self.inactive@.dom().finite()
        &&& forall|id: u64| #[trigger] self.all().contains_key(id) ==> id < self.next_id
    }

    /// One workspace, the active one.
    pub fn new(space: S) -> (r: WorkspaceState<S>)
        ensures
            r.wf(),
            r.active_id == 1,
            r.next_id == 2,
            r.active.space == space,
            r.active.emacs_surface is None,
            r.active.name@ == Seq::<char>::empty(),
            r.inactive@ == Map::<u64, Workspace<S>>::empty(),
    {
        WorkspaceState {
            active: Workspace { space, emacs_surface: None, name: String::new() },
            inactive: HashMap::new(),
            active_id: 1,
            next_id: 2,
        }
    }

    /// Hands out an identifier that no workspace has.
    pub fn alloc_id(&mut self) -> (r: u64)
        requires
            old(self).wf(),
            old(self).next_id < u64::MAX,
        ensures
            final(self).wf(),
            r == old(self).next_id,
            !old(self).all().contains_key(r),
            *final(self) == (WorkspaceState { next_id: (r + 1) as u64, ..*old(self) }),
    {
        let id: u64 = self.next_id;
        assert(self.all().contains_key(id) ==> id < self.next_id);
        self.next_id = id + 1;
        assert forall|k: u64| #[trigger] self.all().contains_key(k) implies k < self.next_id by {
            assert(old(self).all().contains_key(k));
        }
        id
    }

    /// The number of workspaces.
    pub fn count(&self) -> (r: usize)
        requires
            self.wf(),
            self.inactive@.len() < usize::MAX,
        ensures
            r == self.all().len(),
    {
        1 + self.inactive.len()
    }

    /// The layout of workspace `ws_id`, to change it in place.
    pub fn space_for_mut(&mut self, ws_id: u64) -> (r: Option<&mut S>)
        ensures
            match r {
                Some(space) => {
                    &&& old(self).all().contains_key(ws_id)
                    &&& *space == old(self).all()[ws_id].space
                    &&& final(self).active_id == old(self).active_id
                    &&& final(self).next_id == old(self).next_id
                    &&& if ws_id == old(self).active_id {
                        &&& final(self).inactive@ == old(self).inactive@
                        &&& final(self).active == (Workspace {
                            space: *final(space),
                            ..old(self).active
                        })
                    } else {
                        &&& final(self).active == old(self).active
                        &&& final(self).inactive@ == old(self).inactive@.insert(
                            ws_id,
                            Workspace { space: *final(space), ..old(self).inactive@[ws_id] },
                        )
                    }
                },
                None => {
                    &&& !old(self).all().contains_key(ws_id)
                    &&& final(self).active_id == old(self).active_id
                    &&& final(self).next_id == old(self).next_id
                    &&& final(self).active == old(self).active
                    &&& final(self).inactive@ == old(self).inactive@
                },
            },
    {
        if ws_id == self.active_id {
            Some(&mut self.active.space)
        } else {
            match entry_mut(&mut self.inactive, ws_id) {
                Some(ws) => Some(&mut ws.space),
                None => None,
            }
        }
    }

    /// Makes `target_id` the active workspace and keeps the one that was
    /// active aside. Nothing happens where it is active already or does not
    /// exist.
    pub fn switch_workspace(&mut self, target_id: u64) -> (r: bool)
        requires
            old(self).wf(),
        ensures
            final(self).wf(),
            r == old(self).inactive@.contains_key(target_id),
            final(self).arrangement() == if r {
                old(self).arrangement().switched(target_id)
            } else {
                old(self).arrangement()
            },
            final(self).all() == old(self).all(),
            final(self).next_id == old(self).next_id,
    {
        if target_id == self.active_id {
            return false;
        }
        let mut target = match self.inactive.remove(&target_id) {
            Some(ws) => ws,
            None => {
                assert(self.inactive@ =~= old(self).inactive@);
                assert(self.all() =~= old(self).all());
                return false;
            },
        };
        core::mem::swap(&mut self.active, &mut target);
        self.inactive.insert(self.active_id, target);
        self.active_id = target_id;
        proof {
            assert(self.all() =~= old(self).all());
        }
        true
    }

    /// Removes a workspace that is not active.
    pub fn destroy_workspace(&mut self, workspace_id: u64) -> (r: Option<Workspace<S>>)
        requires
            old(self).wf(),
        ensures
            final(self).wf(),
            match r {
                Some(ws) => {
                    &&& old(self).inactive@.contains_key(workspace_id)
                    &&& ws == old(self).inactive@[workspace_id]
                    &&& final(self).all() == old(self).all().remove(workspace_id)
                },
                None => !old(self).inactive@.contains_key(workspace_id) && final(self).all() == old(
                    self,
                ).all(),
            },
            final(self).inactive@ == old(self).inactive@.remove(workspace_id),
            final(self).active == old(self).active,
            final(self).active_id == old(self).active_id,
            final(self).next_id == old(self).next_id,
    {
        let r = self.inactive.remove(&workspace_id);
        proof {
            if r is Some {
                assert(self.all() =~= old(self).all().remove(workspace_id));
            } else {
                assert(self.inactive@ =~= old(self).inactive@);
            }
            assert forall|k: u64| #[trigger] self.all().contains_key(k) implies k
                < self.next_id by {
                assert(old(self).all().contains_key(k));
            }
        }
        r
    }

    /// Keeps a new workspace aside.
    pub fn insert(&mut self, id: u64, ws: Workspace<S>)
        requires
            old(self).wf(),
            !old(self).all().contains_key(id),
            id < old(self).next_id,
        ensures
            final(self).wf(),
            final(self).all() == old(self).all().insert(id, ws),
            final(self).inactive@ == old(self).inactive@.insert(id, ws),
            final(self).active == old(self).active,
            final(self).active_id == old(self).active_id,
            final(self).next_id == old(self).next_id,
    {
        self.inactive.insert(id, ws);
        proof {
            assert(self.all() =~= old(self).all().insert(id, ws));
            assert forall|k: u64| #[trigger] self.all().contains_key(k) implies k
                < self.next_id by {
                if k != id {
                    assert(old(self).all().contains_key(k));
                }
            }
        }
    }

    /// A workspace kept aside whose Emacs surface is `surface`.
    pub fn find_inactive(&self, surface: SurfaceId) -> (r: Option<u64>)
        ensures
            match r {
                Some(id) => self.inactive@.contains_key(id)
                    && self.inactive@[id].emacs_surface == Some(surface),
                None => forall|other: u64| #[trigger]
                    self.inactive@.contains_key(other) ==> self.inactive@[other].emacs_surface
                        != Some(surface),
            },
    {
        let ghost order = spec_keys_iter(&self.inactive).remaining();
        let ghost keys = order.unref();
        for key in it: self.inactive.keys()
            invariant
                it.seq() == order,
                keys == order.unref(),
                keys.to_set() == self.inactive@.dom(),
                forall|k: int|
                    0 <= k < it.index() ==> self.inactive@[#[trigger] keys[k]].emacs_surface
                        != Some(surface),
        {
            assert(keys[it.index()] == *key);
            assert(keys.to_set().contains(*key));
            match self.inactive.get(key) {
                Some(ws) => {
                    if is_surface(ws.emacs_surface, surface) {
                        return Some(*key);
                    }
                },
                None => {},
            }
        }
        proof {
            assert forall|id: u64| #[trigger]
                self.inactive@.contains_key(id) implies self.inactive@[id].emacs_surface != Some(
                surface,
            ) by {
                assert(keys.to_set().contains(id));
                let k = choose|k: int| 0 <= k < keys.len() && keys[k] == id;
                assert(self.inactive@[keys[k]].emacs_surface != Some(surface));
            }
        }
        None
    }

    /// Gives a workspace kept aside a new name.
    pub fn rename_inactive(&mut self, id: u64, name: String)
        requires
            old(self).wf(),
            old(self).inactive@.contains_key(id),
        ensures
            final(self).wf(),
            final(self).inactive@ == old(self).inactive@.insert(
                id,
                Workspace { name, ..old(self).inactive@[id] },
            ),
            final(self).active == old(self).active,
            final(self).active_id == old(self).active_id,
            final(self).next_id == old(self).next_id,
    {
        match entry_mut(&mut self.inactive, id) {
            Some(ws) => {
                ws.name = name;
            },
            None => {},
        }
        proof {
            assert forall|k: u64| #[trigger] self.all().contains_key(k) implies k
                < self.next_id by {
                assert(old(self).all().contains_key(k));
            }
        }
    }

    /// Whether `surface` is the Emacs surface of some workspace.
    pub fn is_any_emacs_surface(&self, surface: SurfaceId) -> (r: bool)
        requires
            self.wf(),
        ensures
            r == exists|id: u64| #[trigger]
                self.all().contains_key(id) && self.all()[id].emacs_surface == Some(surface),
    {
        if is_surface(self.active.emacs_surface, surface) {
            assert(self.all().contains_key(self.active_id));
            return true;
        }
        let ghost order = spec_values_iter(&self.inactive).remaining();
        let ghost values = order.unref();
        assert forall|id: u64| #[trigger] self.inactive@.contains_key(id) implies values.contains(
            self.inactive@[id],
        ) by {
            assert(self.inactive@.values().contains(self.inactive@[id]));
            assert(values.to_set().contains(self.inactive@[id]));
        }
        for ws in it: self.inactive.values()
            invariant
                it.seq() == order,
                values == order.unref(),
                values.to_set() == self.inactive@.values(),
                !self.inactive@.contains_key(self.active_id),
                forall|k: int|
                    0 <= k < it.index() ==> (#[trigger] values[k]).emacs_surface != Some(surface),
        {
            if is_surface(ws.emacs_surface, surface) {
                proof {
                    assert(values[it.index()] == *ws);
                    assert(values.to_set().contains(*ws));
                    let id = choose|id: u64|
                        #[trigger] self.inactive@.contains_key(id) && self.inactive@[id] == *ws;
                    assert(self.all().contains_key(id) && self.all()[id] == *ws);
                }
                return true;
            }
        }
        proof {
            assert forall|id: u64| #[trigger] self.all().contains_key(id) implies self.all()[id].emacs_surface
                != Some(surface) by {
                if id != self.active_id {
                    let ws = self.inactive@[id];
                    let k = choose|k: int| 0 <= k < values.len() && values[k] == ws;
                    assert(values[k].emacs_surface != Some(surface));
                }
            }
        }
        false
    }

    /// The identifiers of all workspaces, in ascending order.
    pub fn all_ids(&self) -> (r: Vec<u64>)
        requires
            self.wf(),
        ensures
            forall|i: int, j: int| 0 <= i < j < r@.len() ==> r@[i] < r@[j],
            forall|id: u64| r@.contains(id) <==> self.all().contains_key(id),
    {
        let mut ids: Vec<u64> = Vec::new();
        ids.push(self.active_id);
        assert(ids@ =~= seq![self.active_id]);
        assert(ids@[0] == self.active_id);
        let ghost order = spec_keys_iter(&self.inactive).remaining();
        for key in it: self.inactive.keys()
            invariant
                it.seq() == order,
                forall|i: int, j: int| 0 <= i < j < ids@.len() ==> ids@[i] < ids@[j],
                forall|id: u64| #[trigger]
                    ids@.contains(id) <==> id == self.active_id || order.unref().take(
                        it.index(),
                    ).contains(id),
        {
            let ghost n = it.index();
            let ghost keys = order.unref();
            proof {
                assert(keys.take(n + 1) =~= keys.take(n).push(keys[n]));
            }
            insert_sorted(&mut ids, *key);
            proof {
                assert forall|id: u64| #[trigger] ids@.contains(id) <==> id == self.active_id
                    || keys.take(n + 1).contains(id) by {
                    vstd::seq_lib::lemma_seq_contains_after_push(keys.take(n), keys[n], id);
                }
            }
        }
        proof {
            let keys = order.unref();
            assert(keys.take(keys.len() as int) =~= keys);
            assert forall|id: u64| ids@.contains(id) <==> self.all().contains_key(id) by {
                assert(keys.to_set().contains(id) <==> keys.contains(id));
            }
        }
        ids
    }
}

/// Whether an optional surface is `surface`.
fn is_surface(s: Option<SurfaceId>, surface: SurfaceId) -> (r: bool)
    ensures
        r == (s == Some(surface)),
{
    match s {
        Some(id) => id == surface,
        None => false,
    }
}

/// Inserts `id` into an ascending list.
fn insert_sorted(ids: &mut Vec<u64>, id: u64)
    requires
        forall|i: int, j: int| 0 <= i < j < old(ids)@.len() ==> old(ids)@[i] < old(ids)@[j],
    ensures
        forall|i: int, j: int| 0 <= i < j < final(ids)@.len() ==> final(ids)@[i] < final(ids)@[j],
        forall|k: u64| #[trigger] final(ids)@.contains(k) <==> k == id || old(ids)@.contains(k),
{
    let mut at: usize = 0;
    while at < ids.len() && ids[at] < id
        invariant
            at <= ids@.len(),
            forall|i: int| 0 <= i < at ==> ids@[i] < id,
        decreases ids@.len() - at,
    {
        at += 1;
    }
    let ghost before = ids@;
    if at < ids.len() && ids[at] == id {
        assert(before.contains(id));
        return ;
    }
    ids.insert(at, id);
    proof {
        assert forall|k: u64| #[trigger] ids@.contains(k) <==> k == id || before.contains(k) by {
            if before.contains(k) {
                let i = choose|i: int| 0 <= i < before.len() && before[i] == k;
                if i < at {
                    assert(ids@[i] == k);
                } else {
                    assert(ids@[i + 1] == k);
                }
            }
            if k == id {
                assert(ids@[at as int] == id);
            }
            if ids@.contains(k) && k != id {
                let i = choose|i: int| 0 <= i < ids@.len() && ids@[i] == k;
                if i < at {
                    assert(before[i] == k);
                } else {
                    assert(before[i - 1] == k);
                }
            }
        }
    }
}

/// There is one workspace at first, an unnamed one without a frame.
pub proof fn one_workspace_at_first<S>(space: S, s: WorkspaceState<S>, n: usize)
    requires
        call_ensures(WorkspaceState::<S>::new, (space,), s),
        call_ensures(WorkspaceState::<S>::count, (&s,), n),
    ensures
        n == 1,
        s.active_id == 1,
        s.active.space == space,
        s.active.emacs_surface is None,
        s.active.name@.len() == 0,
        forall|id: u64| !#[trigger] s.inactive@.contains_key(id),
{
    assert(s.all().dom() =~= Set::<u64>::empty().insert(1u64));
}

/// Two identifiers handed out one after the other differ, and neither is that of
/// a workspace.
pub proof fn identifiers_are_handed_out_once<S>(
    s: &mut WorkspaceState<S>,
    t: &mut WorkspaceState<S>,
    a: u64,
    b: u64,
)
    requires
        call_ensures(WorkspaceState::<S>::alloc_id, (s,), a),
        call_ensures(WorkspaceState::<S>::alloc_id, (t,), b),
        old(s).next_id < u64::MAX,
        *old(t) == *final(s),
    ensures
        a < b,
        a != old(s).active_id && !old(s).inactive@.contains_key(a),
        b != old(s).active_id && !old(s).inactive@.contains_key(b),
        final(t).active == old(s).active,
        final(t).active_id == old(s).active_id,
        final(t).inactive@ == old(s).inactive@,
{
    assert(old(s).all().contains_key(a) == (a == old(s).active_id || old(
        s,
    ).inactive@.contains_key(a)));
    assert(old(t).all().contains_key(b) == (b == old(s).active_id || old(
        s,
    ).inactive@.contains_key(b)));
}

/// There is one workspace more than those kept aside.
pub proof fn the_active_workspace_counts<S>(s: WorkspaceState<S>, n: usize)
    requires
        call_ensures(WorkspaceState::<S>::count, (&s,), n),
        s.wf(),
    ensures
        n == s.inactive@.dom().len() + 1,
{
    assert(s.all().dom() =~= s.inactive@.dom().insert(s.active_id));
}

/// The layout handed out is that of the workspace asked for; what is written to
/// it stands in that workspace, and nothing else changes.
pub proof fn layouts_change_in_place<S>(
    s: &mut WorkspaceState<S>,
    id: u64,
    r: Option<&mut S>,
)
    requires
        call_ensures(WorkspaceState::<S>::space_for_mut, (s, id), r),
    ensures
        (r is None) == (id != old(s).active_id && !old(s).inactive@.contains_key(id)),
        final(s).active_id == old(s).active_id,
        final(s).next_id == old(s).next_id,
        final(s).inactive@.dom() == old(s).inactive@.dom(),
        final(s).active.name == old(s).active.name,
        final(s).active.emacs_surface == old(s).active.emacs_surface,
        forall|k: u64|
            k != id && #[trigger] old(s).inactive@.contains_key(k) ==> final(s).inactive@[k]
                == old(s).inactive@[k],
        id != old(s).active_id ==> final(s).active == old(s).active,
        r matches Some(space) ==> if id == old(s).active_id {
            &&& *space == old(s).active.space
            &&& final(s).active.space == *final(space)
            &&& final(s).inactive@ == old(s).inactive@
        } else {
            &&& *space == old(s).inactive@[id].space
            &&& final(s).inactive@[id].space == *final(space)
            &&& final(s).inactive@[id].name == old(s).inactive@[id].name
            &&& final(s).inactive@[id].emacs_surface == old(s).inactive@[id].emacs_surface
        },
{
    assert(final(s).inactive@.dom() =~= old(s).inactive@.dom());
}

/// A switch brings the target to the front and keeps the workspace that was
/// there under its own identifier; the others stay. It happens exactly where the
/// target is kept aside.
pub proof fn switches_exchange_two_workspaces<S>(
    s: &mut WorkspaceState<S>,
    target: u64,
    r: bool,
)
    requires
        call_ensures(WorkspaceState::<S>::switch_workspace, (s, target), r),
        old(s).wf(),
    ensures
        r == old(s).inactive@.contains_key(target),
        final(s).next_id == old(s).next_id,
        !r ==> final(s).active == old(s).active && final(s).active_id == old(s).active_id
            && final(s).inactive@ == old(s).inactive@,
        r ==> {
            &&& final(s).active_id == target
            &&& final(s).active == old(s).inactive@[target]
            &&& final(s).inactive@.contains_key(old(s).active_id)
            &&& final(s).inactive@[old(s).active_id] == old(s).active
            &&& !final(s).inactive@.contains_key(target)
            &&& forall|k: u64|
                k != target && #[trigger] old(s).inactive@.contains_key(k)
                    ==> final(s).inactive@.contains_key(k) && final(s).inactive@[k]
                    == old(s).inactive@[k]
        },
{
}

/// A workspace kept aside can be removed, and is handed back; the active one
/// stays, and so do the others.
pub proof fn removed_workspaces_are_handed_back<S>(
    s: &mut WorkspaceState<S>,
    id: u64,
    r: Option<Workspace<S>>,
)
    requires
        call_ensures(WorkspaceState::<S>::destroy_workspace, (s, id), r),
        old(s).wf(),
    ensures
        (r is Some) == old(s).inactive@.contains_key(id),
        r matches Some(ws) ==> ws == old(s).inactive@[id],
        !final(s).inactive@.contains_key(id),
        final(s).active == old(s).active,
        final(s).active_id == old(s).active_id,
        final(s).next_id == old(s).next_id,
        forall|k: u64|
            k != id ==> (#[trigger] final(s).inactive@.contains_key(k) == old(
                s,
            ).inactive@.contains_key(k)),
        forall|k: u64|
            k != id && #[trigger] old(s).inactive@.contains_key(k) ==> final(s).inactive@[k]
                == old(s).inactive@[k],
{
}

/// A new workspace is kept aside, and can be switched to and removed again: then
/// all is as before.
pub proof fn insertions_can_be_taken_back<S>(
    s: &mut WorkspaceState<S>,
    t: &mut WorkspaceState<S>,
    id: u64,
    ws: Workspace<S>,
    r: Option<Workspace<S>>,
)
    requires
        call_ensures(WorkspaceState::<S>::insert, (s, id, ws), ()),
        *old(t) == *final(s),
        call_ensures(WorkspaceState::<S>::destroy_workspace, (t, id), r),
        old(s).wf(),
        id != old(s).active_id,
        !old(s).inactive@.contains_key(id),
    ensures
        final(s).inactive@.contains_key(id),
        final(s).inactive@[id] == ws,
        final(s).active == old(s).active,
        final(s).active_id == old(s).active_id,
        r == Some(ws),
        final(t).inactive@ == old(s).inactive@,
        final(t).active == old(s).active,
        final(t).active_id == old(s).active_id,
        final(t).next_id == old(s).next_id,
{
    assert(final(t).inactive@ =~= old(s).inactive@);
}

/// A workspace kept aside is found by the surface of its frame, and the active
/// one is not looked at. A surface is one of Emacs where any workspace has it.
pub proof fn frames_are_found_by_their_surface<S>(
    s: WorkspaceState<S>,
    surface: SurfaceId,
    found: Option<u64>,
    any: bool,
)
    requires
        call_ensures(WorkspaceState::<S>::find_inactive, (&s, surface), found),
        call_ensures(WorkspaceState::<S>::is_any_emacs_surface, (&s, surface), any),
        s.wf(),
    ensures
        found matches Some(id) ==> s.inactive@.contains_key(id) && s.inactive@[id].emacs_surface
            == Some(surface),
        forall|id: u64| #[trigger]
            s.inactive@.contains_key(id) && s.inactive@[id].emacs_surface == Some(surface)
                ==> found is Some,
        any == (s.active.emacs_surface == Some(surface) || found is Some),
{
    if s.active.emacs_surface == Some(surface) {
        assert(s.all().contains_key(s.active_id));
    }
    if let Some(id) = found {
        assert(s.all().contains_key(id));
    }
}

/// A new name is taken by the workspace that it is for; its layout and its frame
/// stay, and so do the other workspaces.
pub proof fn names_are_taken<S>(s: &mut WorkspaceState<S>, id: u64, name: String)
    requires
        call_ensures(WorkspaceState::<S>::rename_inactive, (s, id, name), ()),
        old(s).inactive@.contains_key(id),
    ensures
        final(s).inactive@.dom() == old(s).inactive@.dom(),
        final(s).inactive@[id].name == name,
        final(s).inactive@[id].space == old(s).inactive@[id].space,
        final(s).inactive@[id].emacs_surface == old(s).inactive@[id].emacs_surface,
        forall|k: u64|
            k != id && #[trigger] old(s).inactive@.contains_key(k) ==> final(s).inactive@[k]
                == old(s).inactive@[k],
        final(s).active == old(s).active,
        final(s).active_id == old(s).active_id,
        final(s).next_id == old(s).next_id,
{
    assert(final(s).inactive@.dom() =~= old(s).inactive@.dom());
}

/// The list of identifiers ascends and has every workspace, the active one too.
pub proof fn all_workspaces_are_listed<S>(s: WorkspaceState<S>, r: Vec<u64>, id: u64)
    requires
        call_ensures(WorkspaceState::<S>::all_ids, (&s,), r),
        s.wf(),
    ensures
        forall|i: int, j: int| 0 <= i < j < r@.len() ==> r@[i] < r@[j],
        r@.contains(id) == (id == s.active_id || s.inactive@.contains_key(id)),
{
    assert(r@.contains(id) <==> s.all().contains_key(id));
}

} // verus!
