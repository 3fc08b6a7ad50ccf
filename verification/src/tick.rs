//! What the compositor looks after once per turn of the event loop.

use crate::geometry::{Point, Rect, Size};
use crate::input::SurfaceId;
use crate::state::{
    app_ids_in, apps_outside, lemma_ids_are_filtered, switch_requests, AppWindow, EmskinState,
    OutgoingMessage, Request,
};
use crate::text::{decimal, push_decimal};
use crate::workspace::{Arrangement, Workspace};
use vstd::prelude::*;

verus! {

/// How long a geometry waits for its client, in nanoseconds.
pub const GEOMETRY_TIMEOUT: u64 = 100_000_000;

/// A request of a workspace-protocol client.
#[derive(Debug, Clone, Copy, PartialEq, Eq, Structural)]
pub enum WorkspaceAction {
    Activate(u64),
    Remove(u64),
    /// Anything else.
    Other,
}

/// A workspace as clients are told of it.
#[derive(Debug, Clone, PartialEq, Eq)]
pub struct WorkspaceInfo {
    pub id: u64,
    pub name: String,
    pub active: bool,
}

/// What a [`WorkspaceInfo`] says.
#[verifier::ext_equal]
pub ghost struct InfoModel {
    pub id: u64,
    pub name: Seq<char>,
    pub active: bool,
}

impl View for WorkspaceInfo {
    type V = InfoModel;

    open spec fn view(&self) -> InfoModel {
        InfoModel { id: self.id, name: self.name@, active: self.active }
    }
}

/// The name that clients see: the workspace's own, or one made of its number.
pub open spec fn shown_name(id: u64, name: Seq<char>) -> Seq<char> {
    if name.len() == 0 {
        "Workspace "@ + decimal(id as nat)
    } else {
        name
    }
}

fn show_name(id: u64, name: &String) -> (r: String)
    ensures
        r@ == shown_name(id, name@),
{
    if name.as_str().is_empty() {
        let mut s = "Workspace ".to_owned();
        push_decimal(&mut s, id);
        s
    } else {
        name.clone()
    }
}

/// Whether a surface is in a list.
fn contains_surface(list: &[SurfaceId], s: SurfaceId) -> (r: bool)
    ensures
        r == list@.contains(s),
{
    let mut i: usize = 0;
    while i < list.len()
        invariant
            i <= list@.len(),
            forall|k: int| 0 <= k < i ==> list@[k] != s,
        decreases list@.len() - i,
    {
        if list[i] == s {
            assert(list@[i as int] == s);
            return true;
        }
        i += 1;
    }
    false
}

/// What a new Emacs frame asks for before it is switched to.
pub open spec fn frame_requests(
    surface: SurfaceId,
    active: u64,
    ws: u64,
    area: Option<Rect>,
) -> Seq<Request> {
    seq![Request::Withdraw { surface, workspace: active }] + (match area {
        Some(r) => seq![
            Request::Configure {
                surface,
                size: Size { w: r.w, h: r.h },
                fullscreen: true,
                at_once: true,
            },
            Request::Place { surface, workspace: ws, at: Point { x: r.x, y: r.y } },
        ],
        None => seq![],
    }) + seq![Request::Send(OutgoingMessage::WorkspaceCreated { workspace_id: ws })]
}

impl<S> EmskinState<S> {
    /// Hands out the Emacs toplevels that wait to be told apart.
    pub fn take_pending_toplevels(&mut self) -> (r: Vec<SurfaceId>)
        ensures
            r == old(self).pending_emacs_toplevels,
            final(self).pending_emacs_toplevels@ == Seq::<SurfaceId>::empty(),
            *final(self) == (EmskinState {
                pending_emacs_toplevels: final(self).pending_emacs_toplevels,
                needs_redraw: old(self).needs_redraw || r@.len() > 0,
                ..*old(self)
            }),
    {
        let mut pending: Vec<SurfaceId> = Vec::new();
        core::mem::swap(&mut pending, &mut self.pending_emacs_toplevels);
        if !pending.is_empty() {
            self.needs_redraw = true;
        }
        pending
    }

    /// Decides an Emacs toplevel that waited. With a parent it is a child frame
    /// and stays where it is. Without one it is a new frame: it gets a
    /// workspace with the layout `space`, which becomes the active one. `area`
    /// is where Emacs stands.
    pub fn process_pending_toplevel(
        &mut self,
        surface: SurfaceId,
        has_parent: bool,
        space: S,
        area: Option<Rect>,
    ) -> (r: Vec<Request>)
        requires
            old(self).workspaces.wf(),
            old(self).workspaces.next_id < u64::MAX,
        ensures
            final(self).workspaces.wf(),
            if has_parent {
                r@ == Seq::<Request>::empty() && *final(self) == *old(self)
            } else {
                let ws = old(self).workspaces.next_id;
                &&& r@ == frame_requests(surface, old(self).workspaces.active_id, ws, area)
                    + switch_requests(ws, Some(surface))
                &&& !old(self).workspaces.all().contains_key(ws)
                &&& final(self).workspaces.active_id == ws
                &&& final(self).workspaces.active.space == space
                &&& final(self).workspaces.active.emacs_surface == Some(surface)
                &&& final(self).workspaces.active.name@ == Seq::<char>::empty()
                &&& final(self).workspaces.inactive@ == old(self).workspaces.all()
                &&& final(self).workspaces.next_id == ws + 1
                &&& *final(self) == old(self).switched_to(final(self).workspaces)
            },
    {
        if has_parent {
            return Vec::new();
        }
        let ghost before = self.workspaces;
        let active: u64 = self.workspaces.active_id;
        let ws: u64 = self.workspaces.alloc_id();
        let workspace = Workspace { space, emacs_surface: Some(surface), name: String::new() };
        let ghost made = workspace;
        self.workspaces.insert(ws, workspace);
        let mut requests: Vec<Request> = Vec::new();
        requests.push(Request::Withdraw { surface, workspace: active });
        match area {
            Some(r) => {
                requests.push(
                    Request::Configure {
                        surface,
                        size: Size { w: r.w, h: r.h },
                        fullscreen: true,
                        at_once: true,
                    },
                );
                requests.push(
                    Request::Place { surface, workspace: ws, at: Point { x: r.x, y: r.y } },
                );
            },
            None => {},
        }
        requests.push(Request::Send(OutgoingMessage::WorkspaceCreated { workspace_id: ws }));
        assert(requests@ =~= frame_requests(surface, active, ws, area));
        let mut switch = self.switch_workspace(ws);
        requests.append(&mut switch);
        proof {
            assert(before.inactive@.insert(ws, made).remove(ws).insert(active, before.active)
                =~= before.all());
        }
        requests
    }

    /// Carries out a request of a workspace-protocol client. The active
    /// workspace is not removed.
    pub fn process_workspace_action(&mut self, action: WorkspaceAction) -> (r: Vec<Request>)
        requires
            old(self).workspaces.wf(),
        ensures
            final(self).workspaces.wf(),
            final(self).workspaces.next_id == old(self).workspaces.next_id,
            match action {
                WorkspaceAction::Activate(id) => if old(
                    self,
                ).workspaces.inactive@.contains_key(id) {
                    &&& r@ == switch_requests(id, old(self).workspaces.inactive@[id].emacs_surface)
                    &&& final(self).workspaces.arrangement() == old(
                        self,
                    ).workspaces.arrangement().switched(id)
                    &&& *final(self) == (EmskinState {
                        needs_redraw: true,
                        ..old(self).switched_to(final(self).workspaces)
                    })
                } else {
                    &&& r@ == Seq::<Request>::empty()
                    &&& final(self).workspaces.arrangement() == old(self).workspaces.arrangement()
                    &&& *final(self) == (EmskinState {
                        workspaces: final(self).workspaces,
                        needs_redraw: true,
                        ..*old(self)
                    })
                },
                WorkspaceAction::Remove(id) => {
                    &&& final(self).workspaces.active_id == old(self).workspaces.active_id
                    &&& final(self).workspaces.active == old(self).workspaces.active
                    &&& final(self).workspaces.inactive@ == old(
                        self,
                    ).workspaces.inactive@.remove(id)
                    &&& *final(self) == (EmskinState {
                        workspaces: final(self).workspaces,
                        apps: final(self).apps,
                        needs_redraw: true,
                        ..*old(self)
                    })
                    &&& if id == old(self).workspaces.active_id {
                        r@ == Seq::<Request>::empty() && final(self).apps == old(self).apps
                    } else {
                        let known = old(self).workspaces.inactive@.contains_key(id);
                        &&& final(self).apps@ == if known {
                            apps_outside(old(self).apps@, id)
                        } else {
                            old(self).apps@
                        }
                        &&& r@ == (if known {
                            destroyed_windows(old(self).apps@, id)
                        } else {
                            seq![]
                        }).push(
                            Request::Send(OutgoingMessage::WorkspaceDestroyed { workspace_id: id }),
                        )
                    }
                },
                WorkspaceAction::Other => {
                    &&& r@ == Seq::<Request>::empty()
                    &&& *final(self) == (EmskinState { needs_redraw: true, ..*old(self) })
                },
            },
    {
        self.needs_redraw = true;
        match action {
            WorkspaceAction::Activate(id) => self.switch_workspace(id),
            WorkspaceAction::Remove(id) => {
                if id == self.workspaces.active_id {
                    assert(self.workspaces.inactive@.remove(id) =~= self.workspaces.inactive@);
                    return Vec::new();
                }
                let mut requests: Vec<Request> = Vec::new();
                match self.destroy_workspace(id) {
                    Some((_, gone)) => {
                        requests = gone;
                        assert(requests@ =~= destroyed_windows(old(self).apps@, id));
                    },
                    None => {},
                }
                requests.push(
                    Request::Send(OutgoingMessage::WorkspaceDestroyed { workspace_id: id }),
                );
                requests
            },
            WorkspaceAction::Other => Vec::new(),
        }
    }
}

/// The messages that tell Emacs of the windows of workspace `ws`.
pub open spec fn destroyed_windows(apps: Seq<AppWindow>, ws: u64) -> Seq<Request> {
    app_ids_in(apps, ws).map_values(
        |id: u64| Request::Send(OutgoingMessage::WindowDestroyed { window_id: id }),
    )
}

// ---------------------------------------------------------------------------
// Dead frames
// ---------------------------------------------------------------------------

/// A workspace whose Emacs frame is gone.
pub open spec fn frame_gone(emacs: Option<SurfaceId>, dead: Seq<SurfaceId>) -> bool {
    match emacs {
        Some(s) => dead.contains(s),
        None => true,
    }
}

/// A list in ascending order, without repetition.
pub open spec fn ascending(ids: Seq<u64>) -> bool {
    forall|i: int, j: int| 0 <= i < j < ids.len() ==> ids[i] < ids[j]
}

/// The windows that are in none of the workspaces `ids`.
pub open spec fn apps_outside_all(apps: Seq<AppWindow>, ids: Seq<u64>) -> Seq<AppWindow> {
    apps.filter(|a: AppWindow| !ids.contains(a.workspace_id))
}

/// The messages about the workspaces `ids` and the windows in them.
pub open spec fn death_requests(ids: Seq<u64>, apps: Seq<AppWindow>) -> Seq<Request>
    decreases ids.len(),
{
    if ids.len() == 0 {
        seq![]
    } else {
        (death_requests(ids.drop_last(), apps) + destroyed_windows(apps, ids.last())).push(
            Request::Send(OutgoingMessage::WorkspaceDestroyed { workspace_id: ids.last() }),
        )
    }
}

/// Removing the windows of some workspaces keeps those of another.
proof fn lemma_ids_in_other(apps: Seq<AppWindow>, ids: Seq<u64>, ws: u64)
    requires
        !ids.contains(ws),
    ensures
        app_ids_in(apps_outside_all(apps, ids), ws) == app_ids_in(apps, ws),
    decreases apps.len(),
{
    reveal(Seq::filter);
    if apps.len() > 0 {
        let keep = |a: AppWindow| !ids.contains(a.workspace_id);
        let rest = apps.drop_last();
        lemma_ids_in_other(rest, ids, ws);
        if keep(apps.last()) {
            let kept = apps_outside_all(rest, ids).push(apps.last());
            assert(kept.drop_last() =~= apps_outside_all(rest, ids));
        }
    }
}

/// Removing the windows of one more workspace.
proof fn lemma_outside_one_more(apps: Seq<AppWindow>, ids: Seq<u64>, ws: u64)
    ensures
        apps_outside(apps_outside_all(apps, ids), ws) == apps_outside_all(apps, ids.push(ws)),
    decreases apps.len(),
{
    reveal(Seq::filter);
    let more = ids.push(ws);
    assert forall|x: u64| #[trigger] more.contains(x) <==> x == ws || ids.contains(x) by {
        vstd::seq_lib::lemma_seq_contains_after_push(ids, ws, x);
    }
    if apps.len() > 0 {
        let rest = apps.drop_last();
        lemma_outside_one_more(rest, ids, ws);
        let kept = apps_outside_all(rest, ids);
        if !ids.contains(apps.last().workspace_id) {
            assert(kept.push(apps.last()).drop_last() =~= kept);
        }
    }
}

impl<S> EmskinState<S> {
    /// The workspaces kept aside whose Emacs frame is gone, in ascending order.
    /// `dead` are the surfaces that no longer exist.
    pub fn dead_workspaces(&self, dead: &[SurfaceId]) -> (r: Vec<u64>)
        requires
            self.workspaces.wf(),
        ensures
            ascending(r@),
            forall|id: u64| #[trigger]
                r@.contains(id) <==> self.workspaces.inactive@.contains_key(id) && frame_gone(
                    self.workspaces.inactive@[id].emacs_surface,
                    dead@,
                ),
    {
        let all = self.workspaces.all_ids();
        let mut gone: Vec<u64> = Vec::new();
        let mut i: usize = 0;
        while i < all.len()
            invariant
                i <= all@.len(),
                ascending(all@),
                ascending(gone@),
                self.workspaces.wf(),
                forall|id: u64| all@.contains(id) <==> self.workspaces.all().contains_key(id),
                gone@.len() > 0 ==> i > 0 && gone@.last() <= all@[i - 1],
                forall|id: u64| #[trigger]
                    gone@.contains(id) <==> all@.take(i as int).contains(id)
                        && self.workspaces.inactive@.contains_key(id) && frame_gone(
                        self.workspaces.inactive@[id].emacs_surface,
                        dead@,
                    ),
            decreases all@.len() - i,
        {
            let id: u64 = all[i];
            let ghost before = gone@;
            assert(all@.take(i + 1) =~= all@.take(i as int).push(id));
            assert(!all@.take(i as int).contains(id));
            match self.workspaces.inactive.get(&id) {
                Some(ws) => {
                    let is_gone = match ws.emacs_surface {
                        Some(s) => contains_surface(dead, s),
                        None => true,
                    };
                    if is_gone {
                        gone.push(id);
                    }
                },
                None => {},
            }
            proof {
                assert forall|k: u64| #[trigger] gone@.contains(k) <==> all@.take(
                    i + 1,
                ).contains(k) && self.workspaces.inactive@.contains_key(k) && frame_gone(
                    self.workspaces.inactive@[k].emacs_surface,
                    dead@,
                ) by {
                    vstd::seq_lib::lemma_seq_contains_after_push(all@.take(i as int), id, k);
                    vstd::seq_lib::lemma_seq_contains_after_push(before, id, k);
                }
            }
            i += 1;
        }
        proof {
            assert(all@.take(i as int) =~= all@);
            assert forall|id: u64| #[trigger]
                gone@.contains(id) <==> self.workspaces.inactive@.contains_key(id) && frame_gone(
                    self.workspaces.inactive@[id].emacs_surface,
                    dead@,
                ) by {
                assert(all@.contains(id) <==> self.workspaces.all().contains_key(id));
            }
        }
        gone
    }

    /// Removes workspaces that are not active, with the windows in them.
    pub fn destroy_workspaces(&mut self, ids: &[u64]) -> (r: Vec<Request>)
        requires
            old(self).workspaces.wf(),
            ascending(ids@),
            forall|i: int|
                0 <= i < ids@.len() ==> old(self).workspaces.inactive@.contains_key(
                    #[trigger] ids@[i],
                ),
        ensures
            final(self).workspaces.wf(),
            final(self).workspaces.active == old(self).workspaces.active,
            final(self).workspaces.active_id == old(self).workspaces.active_id,
            final(self).workspaces.next_id == old(self).workspaces.next_id,
            final(self).workspaces.inactive@ == old(self).workspaces.inactive@.remove_keys(
                ids@.to_set(),
            ),
            final(self).apps@ == apps_outside_all(old(self).apps@, ids@),
            r@ == death_requests(ids@, old(self).apps@),
            *final(self) == (EmskinState {
                workspaces: final(self).workspaces,
                apps: final(self).apps,
                ..*old(self)
            }),
    {
        let mut requests: Vec<Request> = Vec::new();
        let ghost apps = self.apps@;
        let ghost table = self.workspaces.inactive@;
        let mut i: usize = 0;
        proof {
            assert(ids@.take(0) =~= seq![]);
            assert(table.remove_keys(ids@.take(0).to_set()) =~= table);
            lemma_outside_none(apps);
        }
        while i < ids.len()
            invariant
                i <= ids@.len(),
                ascending(ids@),
                forall|k: int| 0 <= k < ids@.len() ==> table.contains_key(#[trigger] ids@[k]),
                self.workspaces.wf(),
                self.workspaces.active == old(self).workspaces.active,
                self.workspaces.active_id == old(self).workspaces.active_id,
                self.workspaces.next_id == old(self).workspaces.next_id,
                self.workspaces.inactive@ == table.remove_keys(ids@.take(i as int).to_set()),
                self.apps@ == apps_outside_all(apps, ids@.take(i as int)),
                requests@ == death_requests(ids@.take(i as int), apps),
                *self == (EmskinState {
                    workspaces: self.workspaces,
                    apps: self.apps,
                    ..*old(self)
                }),
            decreases ids@.len() - i,
        {
            let id: u64 = ids[i];
            let ghost done = ids@.take(i as int);
            let ghost sent = requests@;
            let ghost kept = self.apps@;
            proof {
                assert(!done.contains(id));
                assert(table.contains_key(ids@[i as int]));
                assert(ids@.take(i + 1) =~= done.push(id));
                assert(ids@.take(i + 1).drop_last() =~= done);
                lemma_ids_in_other(apps, done, id);
                lemma_outside_one_more(apps, done, id);
            }
            match self.destroy_workspace(id) {
                Some((_, gone)) => {
                    let mut gone = gone;
                    assert(gone@ =~= destroyed_windows(kept, id));
                    requests.append(&mut gone);
                },
                None => {},
            }
            requests.push(
                Request::Send(OutgoingMessage::WorkspaceDestroyed { workspace_id: id }),
            );
            proof {
                assert forall|k: u64| #[trigger] done.push(id).to_set().contains(k) <==> k == id
                    || done.to_set().contains(k) by {
                    vstd::seq_lib::lemma_seq_contains_after_push(done, id, k);
                }
                assert(self.workspaces.inactive@ =~= table.remove_keys(done.push(id).to_set()));
            }
            i += 1;
        }
        assert(ids@.take(i as int) =~= ids@);
        requests
    }
}

proof fn lemma_outside_none(apps: Seq<AppWindow>)
    ensures
        apps_outside_all(apps, seq![]) == apps,
    decreases apps.len(),
{
    reveal(Seq::filter);
    if apps.len() > 0 {
        lemma_outside_none(apps.drop_last());
        assert(apps.drop_last().push(apps.last()) =~= apps);
    }
}

/// Whether `ids` are the workspaces kept aside whose frame is gone.
pub open spec fn are_the_dead<S>(
    ids: Seq<u64>,
    inactive: vstd::map::Map<u64, Workspace<S>>,
    dead: Seq<SurfaceId>,
) -> bool {
    &&& ascending(ids)
    &&& forall|id: u64| #[trigger]
        ids.contains(id) <==> inactive.contains_key(id) && frame_gone(
            inactive[id].emacs_surface,
            dead,
        )
}

/// What is left after the workspaces `ids` were removed, and what became of an
/// active frame that is gone: another workspace takes over, or, where there is
/// none, the compositor stops. It stays where no toplevel is taken to be Emacs.
pub open spec fn after_deaths<S>(
    before: EmskinState<S>,
    after: EmskinState<S>,
    requests: Seq<Request>,
    ids: Seq<u64>,
    active_gone: bool,
) -> bool {
    let left = before.workspaces.inactive@.remove_keys(ids.to_set());
    let arrangement = Arrangement { inactive: left, ..before.workspaces.arrangement() };
    let told = death_requests(ids, before.apps@);
    &&& after.apps@ == apps_outside_all(before.apps@, ids)
    &&& after.workspaces.next_id == before.workspaces.next_id
    &&& if !active_gone {
        &&& requests == told
        &&& after.workspaces.arrangement() == arrangement
        &&& after == (EmskinState {
            workspaces: after.workspaces,
            apps: after.apps,
            needs_redraw: before.needs_redraw || ids.len() > 0,
            ..before
        })
    } else if left.dom() == vstd::set::Set::<u64>::empty() {
        &&& requests == if before.detect_emacs {
            told.push(Request::Stop)
        } else {
            told
        }
        &&& after.workspaces.arrangement() == arrangement
        &&& after == (EmskinState {
            workspaces: after.workspaces,
            apps: after.apps,
            needs_redraw: before.needs_redraw || ids.len() > 0,
            ..before
        })
    } else {
        &&& left.contains_key(after.workspaces.active_id)
        &&& requests == told + switch_requests(
            after.workspaces.active_id,
            left[after.workspaces.active_id].emacs_surface,
        )
        &&& after.workspaces.arrangement() == arrangement.switched(after.workspaces.active_id)
        &&& after == (EmskinState {
            apps: after.apps,
            needs_redraw: true,
            ..before.switched_to(after.workspaces)
        })
    }
}

impl<S> EmskinState<S> {
    /// Looks after Emacs frames that are gone. `dead` are the surfaces that no
    /// longer exist.
    pub fn detect_dead_workspaces(&mut self, dead: &[SurfaceId]) -> (r: Vec<Request>)
        requires
            old(self).workspaces.wf(),
        ensures
            final(self).workspaces.wf(),
            exists|ids: Seq<u64>| #[trigger]
                are_the_dead(ids, old(self).workspaces.inactive@, dead@) && after_deaths(
                    *old(self),
                    *final(self),
                    r@,
                    ids,
                    (old(self).workspaces.active.emacs_surface matches Some(s) && dead@.contains(s))
                        && old(self).initial_size_settled,
                ),
    {
        let ids = self.dead_workspaces(dead);
        proof {
            assert forall|i: int| 0 <= i < ids@.len() implies self.workspaces.inactive@.contains_key(
                #[trigger] ids@[i],
            ) by {
                assert(ids@.contains(ids@[i]));
            }
            assert(are_the_dead(ids@, old(self).workspaces.inactive@, dead@));
        }
        let mut requests = self.destroy_workspaces(ids.as_slice());
        if !ids.is_empty() {
            self.needs_redraw = true;
        }
        let active_gone = match self.workspaces.active.emacs_surface {
            Some(s) => contains_surface(dead, s),
            None => false,
        };
        if active_gone && self.initial_size_settled {
            let all = self.workspaces.all_ids();
            let mut fallback: Option<u64> = None;
            let mut i: usize = 0;
            while i < all.len()
                invariant
                    i <= all@.len(),
                    match fallback {
                        Some(id) => all@.contains(id) && id != self.workspaces.active_id,
                        None => forall|k: int|
                            0 <= k < i ==> all@[k] == self.workspaces.active_id,
                    },
                decreases all@.len() - i,
            {
                if fallback.is_none() && all[i] != self.workspaces.active_id {
                    assert(all@.contains(all@[i as int]));
                    fallback = Some(all[i]);
                }
                i += 1;
            }
            match fallback {
                Some(id) => {
                    assert(self.workspaces.all().contains_key(id));
                    let mut switch = self.switch_workspace(id);
                    requests.append(&mut switch);
                    self.needs_redraw = true;
                },
                None => {
                    proof {
                        let left = self.workspaces.inactive@;
                        assert forall|id: u64| !left.dom().contains(id) by {
                            if left.contains_key(id) {
                                assert(self.workspaces.all().contains_key(id));
                                assert(all@.contains(id));
                                let k = choose|k: int| 0 <= k < all@.len() && all@[k] == id;
                                assert(all@[k] == self.workspaces.active_id);
                            }
                        }
                        assert(left.dom() =~= vstd::set::Set::<u64>::empty());
                    }
                    if self.detect_emacs {
                        requests.push(Request::Stop);
                    }
                },
            }
        }
        proof {
            assert(after_deaths(
                *old(self),
                *self,
                requests@,
                ids@,
                (old(self).workspaces.active.emacs_surface matches Some(s) && dead@.contains(s))
                    && old(self).initial_size_settled,
            ));
        }
        requests
    }

    /// What workspace clients are told: every workspace, in ascending order.
    pub fn refresh_workspace_state(&self) -> (r: Vec<WorkspaceInfo>)
        requires
            self.workspaces.wf(),
        ensures
            forall|i: int, j: int| 0 <= i < j < r@.len() ==> r@[i].id < r@[j].id,
            forall|i: int|
                0 <= i < r@.len() ==> {
                    let info = (#[trigger] r@[i])@;
                    &&& self.workspaces.all().contains_key(info.id)
                    &&& info.name == shown_name(info.id, self.workspaces.all()[info.id].name@)
                    &&& info.active == (info.id == self.workspaces.active_id)
                },
            forall|id: u64| #[trigger]
                self.workspaces.all().contains_key(id) ==> exists|i: int|
                    0 <= i < r@.len() && (#[trigger] r@[i]).id == id,
    {
        let all = self.workspaces.all_ids();
        let mut infos: Vec<WorkspaceInfo> = Vec::new();
        let mut i: usize = 0;
        while i < all.len()
            invariant
                i <= all@.len(),
                infos@.len() == i,
                self.workspaces.wf(),
                forall|id: u64| all@.contains(id) <==> self.workspaces.all().contains_key(id),
                forall|k: int|
                    0 <= k < i ==> {
                        let info = (#[trigger] infos@[k])@;
                        &&& info.id == all@[k]
                        &&& self.workspaces.all().contains_key(info.id)
                        &&& info.name == shown_name(info.id, self.workspaces.all()[info.id].name@)
                        &&& info.active == (info.id == self.workspaces.active_id)
                    },
            decreases all@.len() - i,
        {
            let id: u64 = all[i];
            assert(all@.contains(all@[i as int]));
            let active = id == self.workspaces.active_id;
            let name = if active {
                show_name(id, &self.workspaces.active.name)
            } else {
                match self.workspaces.inactive.get(&id) {
                    Some(ws) => show_name(id, &ws.name),
                    None => String::new(),
                }
            };
            infos.push(WorkspaceInfo { id, name, active });
            i += 1;
        }
        proof {
            assert forall|id: u64| #[trigger]
                self.workspaces.all().contains_key(id) implies exists|k: int|
                0 <= k < infos@.len() && (#[trigger] infos@[k]).id == id by {
                assert(all@.contains(id));
                let k = choose|k: int| 0 <= k < all@.len() && all@[k] == id;
                assert(infos@[k]@.id == id);
            }
            assert forall|a: int, b: int| 0 <= a < b < infos@.len() implies infos@[a].id
                < infos@[b].id by {
                assert(infos@[a]@.id == all@[a] && infos@[b]@.id == all@[b]);
            }
        }
        infos
    }
}

// ---------------------------------------------------------------------------
// Dead windows
// ---------------------------------------------------------------------------

/// What is asked for the windows among `apps` whose surface is gone, in order.
pub open spec fn gone_requests(apps: Seq<AppWindow>, dead: Seq<SurfaceId>) -> Seq<Request>
    decreases apps.len(),
{
    if apps.len() == 0 {
        seq![]
    } else if dead.contains(apps.last().surface) {
        gone_requests(apps.drop_last(), dead) + seq![
            Request::Withdraw {
                surface: apps.last().surface,
                workspace: apps.last().workspace_id,
            },
            Request::Send(OutgoingMessage::WindowDestroyed { window_id: apps.last().window_id }),
        ]
    } else {
        gone_requests(apps.drop_last(), dead)
    }
}

/// The windows whose surface still exists.
pub open spec fn living(apps: Seq<AppWindow>, dead: Seq<SurfaceId>) -> Seq<AppWindow> {
    apps.filter(|a: AppWindow| !dead.contains(a.surface))
}

impl<S> EmskinState<S> {
    /// Forgets embedded windows whose surface is gone. `unfocused` says that
    /// nothing has keyboard focus: Emacs gets it then.
    pub fn cleanup_dead_apps(&mut self, dead: &[SurfaceId], unfocused: bool) -> (r: Vec<Request>)
        ensures
            final(self).apps@ == living(old(self).apps@, dead@),
            ({
                let any = final(self).apps@.len() < old(self).apps@.len();
                &&& r@ == gone_requests(old(self).apps@, dead@) + (if any && unfocused {
                    seq![Request::Focus(old(self).workspaces.active.emacs_surface)]
                } else {
                    seq![]
                })
                &&& *final(self) == (EmskinState {
                    apps: final(self).apps,
                    needs_redraw: old(self).needs_redraw || any,
                    ..*old(self)
                })
            }),
    {
        let ghost all = self.apps@;
        let ghost keep = |a: AppWindow| !dead@.contains(a.surface);
        let mut kept: Vec<AppWindow> = Vec::new();
        let mut requests: Vec<Request> = Vec::new();
        let mut i: usize = 0;
        proof {
            reveal(Seq::filter);
            assert(all.take(0) =~= seq![]);
            assert(kept@ =~= all.take(0).filter(keep));
        }
        while i < self.apps.len()
            invariant
                i <= all.len(),
                self.apps@ == all,
                keep == (|a: AppWindow| !dead@.contains(a.surface)),
                kept@ == all.take(i as int).filter(keep),
                kept@.len() <= i,
                requests@ == gone_requests(all.take(i as int), dead@),
            decreases all.len() - i,
        {
            let app = self.apps[i];
            proof {
                assert(all.take(i + 1).drop_last() =~= all.take(i as int));
                assert(all.take(i + 1).last() == app);
                reveal(Seq::filter);
            }
            let ghost before = requests@;
            if contains_surface(dead, app.surface) {
                requests.push(
                    Request::Withdraw { surface: app.surface, workspace: app.workspace_id },
                );
                requests.push(
                    Request::Send(OutgoingMessage::WindowDestroyed { window_id: app.window_id }),
                );
                assert(requests@ =~= gone_requests(all.take(i + 1), dead@));
            } else {
                kept.push(app);
            }
            i += 1;
        }
        assert(all.take(i as int) =~= all);
        if kept.len() < self.apps.len() {
            self.needs_redraw = true;
            if unfocused {
                requests.push(Request::Focus(self.workspaces.active.emacs_surface));
            }
        }
        self.apps = kept;
        assert(requests@ =~= gone_requests(all, dead@) + (if kept@.len() < all.len() && unfocused {
            seq![Request::Focus(old(self).workspaces.active.emacs_surface)]
        } else {
            seq![]
        }));
        requests
    }
}

// ---------------------------------------------------------------------------
// Geometries that wait
// ---------------------------------------------------------------------------

/// A window whose geometry has waited too long for its client.
pub open spec fn timed_out(a: AppWindow, now: u64) -> bool {
    match a.pending_since {
        Some(since) => a.pending_geometry is Some && now >= since && now - since
            >= GEOMETRY_TIMEOUT,
        None => false,
    }
}

/// The window with the geometry that waited.
pub open spec fn committed(a: AppWindow, now: u64) -> AppWindow {
    if timed_out(a, now) {
        AppWindow {
            geometry: a.pending_geometry,
            pending_geometry: None,
            pending_since: None,
            ..a
        }
    } else {
        a
    }
}

/// Where the windows whose geometry has waited too long go, in order.
pub open spec fn commit_requests(apps: Seq<AppWindow>, now: u64) -> Seq<Request>
    decreases apps.len(),
{
    if apps.len() == 0 {
        seq![]
    } else if timed_out(apps.last(), now) {
        let geometry = apps.last().pending_geometry->0;
        commit_requests(apps.drop_last(), now).push(
            Request::Place {
                surface: apps.last().surface,
                workspace: apps.last().workspace_id,
                at: Point { x: geometry.x, y: geometry.y },
            },
        )
    } else {
        commit_requests(apps.drop_last(), now)
    }
}

impl<S> EmskinState<S> {
    /// Applies geometries that have waited too long for their client.
    pub fn commit_timed_out(&mut self, now: u64) -> (r: Vec<Request>)
        ensures
            r@ == commit_requests(old(self).apps@, now),
            final(self).apps@ == old(self).apps@.map_values(|a: AppWindow| committed(a, now)),
            *final(self) == (EmskinState {
                apps: final(self).apps,
                needs_redraw: old(self).needs_redraw || r@.len() > 0,
                ..*old(self)
            }),
    {
        let ghost all = self.apps@;
        let ghost step = |a: AppWindow| committed(a, now);
        let mut requests: Vec<Request> = Vec::new();
        let mut apps: Vec<AppWindow> = Vec::new();
        let mut i: usize = 0;
        proof {
            assert(all.take(0) =~= seq![]);
            assert(apps@ =~= all.take(0).map_values(step));
        }
        while i < self.apps.len()
            invariant
                i <= all.len(),
                self.apps@ == all,
                step == (|a: AppWindow| committed(a, now)),
                apps@ == all.take(i as int).map_values(step),
                requests@ == commit_requests(all.take(i as int), now),
            decreases all.len() - i,
        {
            let mut app = self.apps[i];
            let ghost before = app;
            proof {
                assert(all.take(i + 1).drop_last() =~= all.take(i as int));
                assert(all.take(i + 1).last() == app);
            }
            match app.pending_since {
                Some(since) => match app.pending_geometry {
                    Some(geometry) => {
                        if now >= since && now - since >= GEOMETRY_TIMEOUT {
                            requests.push(
                                Request::Place {
                                    surface: app.surface,
                                    workspace: app.workspace_id,
                                    at: Point { x: geometry.x, y: geometry.y },
                                },
                            );
                            app.geometry = app.pending_geometry;
                            app.pending_geometry = None;
                            app.pending_since = None;
                        }
                    },
                    None => {},
                },
                None => {},
            }
            apps.push(app);
            assert(app == committed(before, now));
            assert(apps@ =~= all.take(i + 1).map_values(step));
            i += 1;
        }
        assert(all.take(i as int) =~= all);
        self.apps = apps;
        if !requests.is_empty() {
            self.needs_redraw = true;
        }
        requests
    }
}

/// An applied geometry does not wait any more: the next tick leaves it alone.
pub proof fn committed_geometry_stays(a: AppWindow, now: u64, later: u64)
    requires
        timed_out(a, now),
    ensures
        !timed_out(committed(a, now), later),
        committed(committed(a, now), later) == committed(a, now),
{
}

// ---------------------------------------------------------------------------
// What a turn promises
// ---------------------------------------------------------------------------

/// A toplevel of Emacs without a parent becomes a frame with a workspace of its
/// own, which is active afterwards; every workspace there was stays, the one that
/// was active among them. The frame is taken out of that one and, where it is
/// known where Emacs stands, put into its own, filling that area. Nothing else is
/// placed or taken out.
pub proof fn new_frames_get_their_own_workspace<S>(
    s: &mut EmskinState<S>,
    surface: SurfaceId,
    space: S,
    area: Option<Rect>,
    r: Vec<Request>,
)
    requires
        call_ensures(
            EmskinState::<S>::process_pending_toplevel,
            (s, surface, false, space, area),
            r,
        ),
        old(s).workspaces.wf(),
        old(s).workspaces.next_id < u64::MAX,
    ensures
        ({
            let before = old(s).workspaces;
            let after = final(s).workspaces;
            &&& after.active_id != before.active_id
            &&& !before.inactive@.contains_key(after.active_id)
            &&& after.active.emacs_surface == Some(surface)
            &&& after.active.space == space
            &&& after.active.name@.len() == 0
            &&& after.inactive@.contains_key(before.active_id)
            &&& after.inactive@[before.active_id] == before.active
            &&& forall|id: u64|
                id != before.active_id ==> (#[trigger] after.inactive@.contains_key(id)
                    <==> before.inactive@.contains_key(id))
            &&& forall|id: u64|
                id != before.active_id && #[trigger] before.inactive@.contains_key(id)
                    ==> after.inactive@[id] == before.inactive@[id]
            &&& after.next_id > after.active_id
            &&& r@[0] == (Request::Withdraw { surface, workspace: before.active_id })
            &&& forall|k: int|
                0 < k < r@.len() ==> !(#[trigger] r@[k] is Withdraw)
            &&& area matches Some(a) ==> {
                &&& r@.len() == 8
                &&& r@[1] == (Request::Configure {
                    surface,
                    size: Size { w: a.w, h: a.h },
                    fullscreen: true,
                    at_once: true,
                })
                &&& r@[2] == (Request::Place {
                    surface,
                    workspace: after.active_id,
                    at: Point { x: a.x, y: a.y },
                })
                &&& forall|k: int| 2 < k < r@.len() ==> !(#[trigger] r@[k] is Place)
            }
            &&& area is None ==> r@.len() == 6 && forall|k: int|
                0 <= k < r@.len() ==> !(#[trigger] r@[k] is Place)
            &&& r@[r@.len() - 5] == Request::Send(
                OutgoingMessage::WorkspaceCreated { workspace_id: after.active_id },
            )
            &&& r@[r@.len() - 3] == Request::Send(
                OutgoingMessage::WorkspaceSwitched { workspace_id: after.active_id },
            )
            &&& r@[r@.len() - 2] == Request::Focus(Some(surface))
        }),
        final(s).apps@ == old(s).apps@,
{
    let before = old(s).workspaces;
    assert(before.all().contains_key(before.active_id));
}

/// A toplevel of Emacs with a parent is a child frame: nothing is asked for and
/// nothing changes.
pub proof fn child_frames_stay_where_they_are<S>(
    s: &mut EmskinState<S>,
    surface: SurfaceId,
    space: S,
    area: Option<Rect>,
    r: Vec<Request>,
)
    requires
        call_ensures(
            EmskinState::<S>::process_pending_toplevel,
            (s, surface, true, space, area),
            r,
        ),
    ensures
        r@.len() == 0,
        *final(s) == *old(s),
{
}

/// The toplevels that wait are handed out once, in order, and redrawn for.
pub proof fn waiting_toplevels_are_handed_out_once<S>(
    s: &mut EmskinState<S>,
    r: Vec<SurfaceId>,
)
    requires
        call_ensures(EmskinState::<S>::take_pending_toplevels, (s,), r),
    ensures
        r@ == old(s).pending_emacs_toplevels@,
        final(s).pending_emacs_toplevels@.len() == 0,
        r@.len() > 0 ==> final(s).needs_redraw,
        r@.len() == 0 ==> final(s).needs_redraw == old(s).needs_redraw,
        final(s).apps@ == old(s).apps@,
{
}

/// A client may activate a workspace that exists and remove one that is not
/// active; whatever it asks for, the frame is drawn anew. Removing tells Emacs of
/// the windows that go with the workspace and then of the workspace.
pub proof fn clients_switch_and_remove_workspaces<S>(
    s: &mut EmskinState<S>,
    action: WorkspaceAction,
    r: Vec<Request>,
)
    requires
        call_ensures(EmskinState::<S>::process_workspace_action, (s, action), r),
        old(s).workspaces.wf(),
    ensures
        final(s).needs_redraw,
        action matches WorkspaceAction::Activate(id) ==> {
            let known = old(s).workspaces.inactive@.contains_key(id);
            &&& final(s).workspaces.active_id == if known {
                id
            } else {
                old(s).workspaces.active_id
            }
            &&& known ==> final(s).workspaces.active == old(s).workspaces.inactive@[id]
            &&& known ==> final(s).workspaces.inactive@[old(s).workspaces.active_id]
                == old(s).workspaces.active
            &&& known ==> r@.contains(
                Request::Focus(old(s).workspaces.inactive@[id].emacs_surface),
            )
            &&& !known ==> r@.len() == 0
            &&& final(s).apps@ == old(s).apps@
        },
        action matches WorkspaceAction::Remove(id) ==> {
            let there = old(s).apps@.filter(|a: AppWindow| a.workspace_id == id);
            let known = old(s).workspaces.inactive@.contains_key(id);
            &&& final(s).workspaces.active_id == old(s).workspaces.active_id
            &&& final(s).workspaces.active == old(s).workspaces.active
            &&& final(s).workspaces.inactive@ == old(s).workspaces.inactive@.remove(id)
            &&& id == old(s).workspaces.active_id ==> r@.len() == 0 && final(s).apps@
                == old(s).apps@
            &&& id != old(s).workspaces.active_id ==> r@.last() == Request::Send(
                OutgoingMessage::WorkspaceDestroyed { workspace_id: id },
            )
            &&& known ==> final(s).apps@ == old(s).apps@.filter(
                |a: AppWindow| !(a.workspace_id == id),
            )
            &&& known ==> r@.len() == there.len() + 1
            &&& known ==> forall|i: int|
                0 <= i < there.len() ==> #[trigger] r@[i] == Request::Send(
                    OutgoingMessage::WindowDestroyed { window_id: there[i].window_id },
                )
            &&& !known ==> final(s).apps@ == old(s).apps@ && r@.len() <= 1
        },
        action == WorkspaceAction::Other ==> r@.len() == 0 && final(s).workspaces
            == old(s).workspaces && final(s).apps@ == old(s).apps@,
{
    assert(final(s).workspaces.arrangement().inactive == final(s).workspaces.inactive@);
    assert(final(s).workspaces.arrangement().active == final(s).workspaces.active);
    assert(final(s).workspaces.arrangement().active_id == final(s).workspaces.active_id);
    if let WorkspaceAction::Activate(id) = action {
        if old(s).workspaces.inactive@.contains_key(id) {
            assert(r@[2] == Request::Focus(old(s).workspaces.inactive@[id].emacs_surface));
        }
    }
    if let WorkspaceAction::Remove(id) = action {
        lemma_ids_are_filtered(old(s).apps@, id);
        let apart = |a: AppWindow| a.workspace_id != id;
        let other = |a: AppWindow| !(a.workspace_id == id);
        assert(apart =~= other);
        if old(s).workspaces.inactive@.contains_key(id) {
            let told = destroyed_windows(old(s).apps@, id);
            assert(r@.drop_last() =~= told);
            let there = old(s).apps@.filter(|a: AppWindow| a.workspace_id == id);
            assert forall|i: int| 0 <= i < there.len() implies #[trigger] r@[i] == Request::Send(
                OutgoingMessage::WindowDestroyed { window_id: there[i].window_id },
            ) by {
                assert(r@[i] == told[i]);
                assert(app_ids_in(old(s).apps@, id)[i] == there[i].window_id);
            }
        }
    }
}

/// The frame of workspace `id`, kept aside, is gone: it has none, or one of the
/// dead surfaces.
pub open spec fn lost_its_frame<S>(
    inactive: vstd::map::Map<u64, Workspace<S>>,
    dead: Seq<SurfaceId>,
    id: u64,
) -> bool {
    &&& inactive.contains_key(id)
    &&& inactive[id].emacs_surface is None || dead.contains(inactive[id].emacs_surface->0)
}

/// A workspace that is kept aside does not outlive its frame: it goes, with its
/// windows, and Emacs is told of it and of them. Every other one stays as it is,
/// with its windows.
pub proof fn workspaces_go_with_their_frame<S>(
    s: &mut EmskinState<S>,
    dead: &[SurfaceId],
    r: Vec<Request>,
)
    requires
        call_ensures(EmskinState::<S>::detect_dead_workspaces, (s, dead), r),
        old(s).workspaces.wf(),
    ensures
        forall|id: u64| #[trigger]
            lost_its_frame(old(s).workspaces.inactive@, dead@, id) ==> {
                &&& id != final(s).workspaces.active_id
                &&& !final(s).workspaces.inactive@.contains_key(id)
                &&& r@.contains(
                    Request::Send(OutgoingMessage::WorkspaceDestroyed { workspace_id: id }),
                )
            },
        forall|id: u64|
            !lost_its_frame(old(s).workspaces.inactive@, dead@, id)
                && #[trigger] old(s).workspaces.inactive@.contains_key(id) ==> if id
                == final(s).workspaces.active_id {
                final(s).workspaces.active == old(s).workspaces.inactive@[id]
            } else {
                final(s).workspaces.inactive@.contains_key(id)
                    && final(s).workspaces.inactive@[id] == old(s).workspaces.inactive@[id]
            },
        final(s).apps@ == old(s).apps@.filter(
            |a: AppWindow|
                !lost_its_frame(old(s).workspaces.inactive@, dead@, a.workspace_id),
        ),
        forall|i: int|
            0 <= i < old(s).apps@.len() && lost_its_frame(
                old(s).workspaces.inactive@,
                dead@,
                (#[trigger] old(s).apps@[i]).workspace_id,
            ) ==> r@.contains(
                Request::Send(
                    OutgoingMessage::WindowDestroyed { window_id: old(s).apps@[i].window_id },
                ),
            ),
        final(s).workspaces.next_id == old(s).workspaces.next_id,
        final(s).next_window_id == old(s).next_window_id,
        final(s).detect_emacs == old(s).detect_emacs,
{
    let inactive = old(s).workspaces.inactive@;
    let apps = old(s).apps@;
    let gone = (old(s).workspaces.active.emacs_surface matches Some(e) && dead@.contains(e))
        && old(s).initial_size_settled;
    let ids = choose|ids: Seq<u64>| #[trigger]
        are_the_dead(ids, inactive, dead@) && after_deaths(*old(s), *final(s), r@, ids, gone);
    let left = inactive.remove_keys(ids.to_set());
    let told = death_requests(ids, apps);
    assert(final(s).workspaces.arrangement().inactive == final(s).workspaces.inactive@);
    assert(final(s).workspaces.arrangement().active == final(s).workspaces.active);
    assert(final(s).workspaces.arrangement().active_id == final(s).workspaces.active_id);
    assert forall|id: u64| #[trigger] ids.contains(id) <==> lost_its_frame(
        inactive,
        dead@,
        id,
    ) by {}
    assert(!inactive.contains_key(old(s).workspaces.active_id));
    assert(told.len() <= r@.len() && forall|k: int| 0 <= k < told.len() ==> r@[k] == told[k]);
    assert forall|id: u64| #[trigger] lost_its_frame(inactive, dead@, id) implies {
        &&& id != final(s).workspaces.active_id
        &&& !final(s).workspaces.inactive@.contains_key(id)
        &&& r@.contains(Request::Send(OutgoingMessage::WorkspaceDestroyed { workspace_id: id }))
    } by {
        assert(ids.contains(id));
        assert(ids.to_set().contains(id));
        assert(!left.contains_key(id));
        lemma_deaths_are_told(ids, apps, id);
        let note = Request::Send(OutgoingMessage::WorkspaceDestroyed { workspace_id: id });
        assert(r@[told.index_of(note)] == note);
    }
    assert forall|id: u64|
        !lost_its_frame(inactive, dead@, id) && #[trigger] inactive.contains_key(id) implies if id
        == final(s).workspaces.active_id {
        final(s).workspaces.active == inactive[id]
    } else {
        final(s).workspaces.inactive@.contains_key(id) && final(s).workspaces.inactive@[id]
            == inactive[id]
    } by {
        assert(!ids.contains(id));
        assert(!ids.to_set().contains(id));
        assert(left.contains_key(id) && left[id] == inactive[id]);
    }
    let apart = |a: AppWindow| !ids.contains(a.workspace_id);
    let other = |a: AppWindow| !lost_its_frame(inactive, dead@, a.workspace_id);
    assert forall|a: AppWindow| #[trigger] apart(a) == other(a) by {
        assert(ids.contains(a.workspace_id) <==> lost_its_frame(inactive, dead@, a.workspace_id));
    }
    assert(apart =~= other);
    assert forall|i: int|
        0 <= i < apps.len() && lost_its_frame(
            inactive,
            dead@,
            (#[trigger] apps[i]).workspace_id,
        ) implies r@.contains(
        Request::Send(OutgoingMessage::WindowDestroyed { window_id: apps[i].window_id }),
    ) by {
        assert(ids.contains(apps[i].workspace_id));
        lemma_windows_are_told(ids, apps, apps[i].workspace_id, i);
        let note = Request::Send(
            OutgoingMessage::WindowDestroyed { window_id: apps[i].window_id },
        );
        assert(r@[told.index_of(note)] == note);
    }
}

proof fn lemma_deaths_are_told(ids: Seq<u64>, apps: Seq<AppWindow>, id: u64)
    requires
        ids.contains(id),
    ensures
        death_requests(ids, apps).contains(
            Request::Send(OutgoingMessage::WorkspaceDestroyed { workspace_id: id }),
        ),
    decreases ids.len(),
{
    let note = Request::Send(OutgoingMessage::WorkspaceDestroyed { workspace_id: id });
    let told = death_requests(ids, apps);
    if ids.last() == id {
        assert(told.last() == note);
    } else {
        let k = ids.index_of(id);
        assert(ids.drop_last()[k] == id);
        lemma_deaths_are_told(ids.drop_last(), apps, id);
        let rest = death_requests(ids.drop_last(), apps);
        assert(told[rest.index_of(note)] == note);
    }
}

proof fn lemma_windows_are_told(ids: Seq<u64>, apps: Seq<AppWindow>, id: u64, i: int)
    requires
        ids.contains(id),
        0 <= i < apps.len(),
        apps[i].workspace_id == id,
    ensures
        death_requests(ids, apps).contains(
            Request::Send(OutgoingMessage::WindowDestroyed { window_id: apps[i].window_id }),
        ),
    decreases ids.len(),
{
    let note = Request::Send(OutgoingMessage::WindowDestroyed { window_id: apps[i].window_id });
    let told = death_requests(ids, apps);
    let rest = death_requests(ids.drop_last(), apps);
    if ids.last() == id {
        lemma_window_is_listed(apps, id, i);
        let k = app_ids_in(apps, id).index_of(apps[i].window_id);
        assert(destroyed_windows(apps, id)[k] == note);
        assert(told[rest.len() + k] == note);
    } else {
        let k = ids.index_of(id);
        assert(ids.drop_last()[k] == id);
        lemma_windows_are_told(ids.drop_last(), apps, id, i);
        assert(told[rest.index_of(note)] == note);
    }
}

proof fn lemma_window_is_listed(apps: Seq<AppWindow>, ws: u64, i: int)
    requires
        0 <= i < apps.len(),
        apps[i].workspace_id == ws,
    ensures
        app_ids_in(apps, ws).contains(apps[i].window_id),
    decreases apps.len(),
{
    let all = app_ids_in(apps, ws);
    if i == apps.len() - 1 {
        assert(all.last() == apps[i].window_id);
    } else {
        lemma_window_is_listed(apps.drop_last(), ws, i);
        let rest = app_ids_in(apps.drop_last(), ws);
        assert(all[rest.index_of(apps[i].window_id)] == apps[i].window_id);
    }
}

/// While the active frame lives, or before Emacs has got its first size, the
/// active workspace stays and nothing stops. Once the frame is gone, a workspace
/// that still has one takes over, with the keyboard; where none has, the
/// compositor stops if it runs for Emacs.
pub proof fn a_dead_frame_hands_over<S>(
    s: &mut EmskinState<S>,
    dead: &[SurfaceId],
    r: Vec<Request>,
)
    requires
        call_ensures(EmskinState::<S>::detect_dead_workspaces, (s, dead), r),
        old(s).workspaces.wf(),
    ensures
        ({
            let inactive = old(s).workspaces.inactive@;
            let gone = old(s).workspaces.active.emacs_surface is Some && dead@.contains(
                old(s).workspaces.active.emacs_surface->0,
            ) && old(s).initial_size_settled;
            let heir = exists|id: u64| #[trigger]
                inactive.contains_key(id) && !lost_its_frame(inactive, dead@, id);
            &&& !gone || !heir ==> final(s).workspaces.active_id == old(s).workspaces.active_id
                && final(s).workspaces.active == old(s).workspaces.active
            &&& gone && heir ==> {
                &&& inactive.contains_key(final(s).workspaces.active_id)
                &&& !lost_its_frame(inactive, dead@, final(s).workspaces.active_id)
                &&& final(s).workspaces.active == inactive[final(s).workspaces.active_id]
                &&& r@.contains(Request::Focus(final(s).workspaces.active.emacs_surface))
                &&& r@.contains(
                    Request::Send(
                        OutgoingMessage::WorkspaceSwitched {
                            workspace_id: final(s).workspaces.active_id,
                        },
                    ),
                )
                &&& final(s).needs_redraw
            }
            &&& r@.contains(Request::Stop) <==> gone && !heir && old(s).detect_emacs
        }),
{
    let inactive = old(s).workspaces.inactive@;
    let apps = old(s).apps@;
    let gone = (old(s).workspaces.active.emacs_surface matches Some(e) && dead@.contains(e))
        && old(s).initial_size_settled;
    let ids = choose|ids: Seq<u64>| #[trigger]
        are_the_dead(ids, inactive, dead@) && after_deaths(*old(s), *final(s), r@, ids, gone);
    let left = inactive.remove_keys(ids.to_set());
    let told = death_requests(ids, apps);
    lemma_deaths_do_not_stop(ids, apps);
    assert(final(s).workspaces.arrangement().active == final(s).workspaces.active);
    assert(final(s).workspaces.arrangement().active_id == final(s).workspaces.active_id);
    assert forall|id: u64| #[trigger] left.contains_key(id) <==> inactive.contains_key(id)
        && !lost_its_frame(inactive, dead@, id) by {
        assert(ids.to_set().contains(id) <==> ids.contains(id));
    }
    if left.dom() != vstd::set::Set::<u64>::empty() {
        assert(exists|id: u64| left.dom().contains(id)) by {
            if forall|id: u64| !left.dom().contains(id) {
                assert(left.dom() =~= vstd::set::Set::<u64>::empty());
            }
        }
        let id = choose|id: u64| left.dom().contains(id);
        assert(left.contains_key(id));
        assert(inactive.contains_key(id));
    } else {
        assert forall|id: u64| #[trigger] inactive.contains_key(id) implies lost_its_frame(
            inactive,
            dead@,
            id,
        ) by {
            assert(!left.dom().contains(id));
        }
    }
    if gone {
        if left.dom() == vstd::set::Set::<u64>::empty() {
            if old(s).detect_emacs {
                assert(r@.last() == Request::Stop);
            }
        } else {
            let n = told.len() as int;
            assert(r@[n + 1] == Request::Send(
                OutgoingMessage::WorkspaceSwitched { workspace_id: final(s).workspaces.active_id },
            ));
            assert(r@[n + 2] == Request::Focus(final(s).workspaces.active.emacs_surface));
        }
    }
}

proof fn lemma_deaths_do_not_stop(ids: Seq<u64>, apps: Seq<AppWindow>)
    ensures
        forall|k: int|
            0 <= k < death_requests(ids, apps).len() ==> !(#[trigger] death_requests(
                ids,
                apps,
            )[k] is Stop),
    decreases ids.len(),
{
    if ids.len() > 0 {
        lemma_deaths_do_not_stop(ids.drop_last(), apps);
    }
}

/// Windows whose surface is gone are forgotten and taken out of their workspace,
/// and Emacs is told of each; the others stay, in order. Where nothing has the
/// keyboard after that, Emacs gets it; where no window went, nothing happens.
pub proof fn dead_windows_are_cleaned_up<S>(
    s: &mut EmskinState<S>,
    dead: &[SurfaceId],
    unfocused: bool,
    r: Vec<Request>,
)
    requires
        call_ensures(EmskinState::<S>::cleanup_dead_apps, (s, dead, unfocused), r),
    ensures
        final(s).apps@ == old(s).apps@.filter(|a: AppWindow| !dead@.contains(a.surface)),
        forall|i: int|
            0 <= i < old(s).apps@.len() && dead@.contains((#[trigger] old(s).apps@[i]).surface)
                ==> r@.contains(
                Request::Withdraw {
                    surface: old(s).apps@[i].surface,
                    workspace: old(s).apps@[i].workspace_id,
                },
            ) && r@.contains(
                Request::Send(
                    OutgoingMessage::WindowDestroyed { window_id: old(s).apps@[i].window_id },
                ),
            ),
        final(s).apps@.len() == old(s).apps@.len() ==> r@.len() == 0 && final(s).needs_redraw
            == old(s).needs_redraw,
        final(s).apps@.len() < old(s).apps@.len() ==> final(s).needs_redraw,
        final(s).apps@.len() <= old(s).apps@.len(),
        r@.len() == 2 * (old(s).apps@.len() - final(s).apps@.len()) + if unfocused
            && final(s).apps@.len() < old(s).apps@.len() {
            1int
        } else {
            0
        },
        unfocused && final(s).apps@.len() < old(s).apps@.len() ==> r@.last() == Request::Focus(
            old(s).workspaces.active.emacs_surface,
        ),
        final(s).workspaces == old(s).workspaces,
{
    lemma_gone_are_told(old(s).apps@, dead@);
    let told = gone_requests(old(s).apps@, dead@);
    assert forall|x: Request| told.contains(x) implies r@.contains(x) by {
        assert(r@[told.index_of(x)] == x);
    }
}

proof fn lemma_gone_are_told(apps: Seq<AppWindow>, dead: Seq<SurfaceId>)
    ensures
        forall|i: int|
            0 <= i < apps.len() && dead.contains((#[trigger] apps[i]).surface) ==> gone_requests(
                apps,
                dead,
            ).contains(
                Request::Withdraw {
                    surface: apps[i].surface,
                    workspace: apps[i].workspace_id,
                },
            ) && gone_requests(apps, dead).contains(
                Request::Send(OutgoingMessage::WindowDestroyed { window_id: apps[i].window_id }),
            ),
        living(apps, dead).len() <= apps.len(),
        gone_requests(apps, dead).len() == 2 * (apps.len() - living(apps, dead).len()),
    decreases apps.len(),
{
    reveal(Seq::filter);
    if apps.len() > 0 {
        let rest = apps.drop_last();
        lemma_gone_are_told(rest, dead);
        let told = gone_requests(apps, dead);
        let before = gone_requests(rest, dead);
        assert forall|x: Request| before.contains(x) implies told.contains(x) by {
            assert(told[before.index_of(x)] == x);
        }
        assert forall|i: int|
            0 <= i < apps.len() && dead.contains((#[trigger] apps[i]).surface) implies told.contains(
            Request::Withdraw { surface: apps[i].surface, workspace: apps[i].workspace_id },
        ) && told.contains(
            Request::Send(OutgoingMessage::WindowDestroyed { window_id: apps[i].window_id }),
        ) by {
            if i < rest.len() {
                assert(rest[i] == apps[i]);
            } else {
                assert(told[before.len() as int] == (Request::Withdraw {
                    surface: apps[i].surface,
                    workspace: apps[i].workspace_id,
                }));
                assert(told[before.len() as int + 1] == Request::Send(
                    OutgoingMessage::WindowDestroyed { window_id: apps[i].window_id },
                ));
            }
        }
    }
}

/// A geometry that has waited a tenth of a second for its client applies: the
/// window has it and is put there, in its own workspace. One that has not waited
/// as long goes on waiting, and windows without one are left alone.
pub proof fn late_geometries_apply<S>(s: &mut EmskinState<S>, now: u64, r: Vec<Request>)
    requires
        call_ensures(EmskinState::<S>::commit_timed_out, (s, now), r),
    ensures
        final(s).apps@.len() == old(s).apps@.len(),
        forall|i: int|
            0 <= i < old(s).apps@.len() ==> {
                let before = #[trigger] old(s).apps@[i];
                let after = final(s).apps@[i];
                let late = before.pending_geometry is Some && before.pending_since is Some && now
                    - before.pending_since->0 >= 100_000_000;
                &&& late ==> {
                    &&& after.geometry == before.pending_geometry
                    &&& after.pending_geometry is None && after.pending_since is None
                    &&& after.window_id == before.window_id && after.surface == before.surface
                    &&& after.workspace_id == before.workspace_id
                    &&& after.visible == before.visible
                    &&& r@.contains(
                        Request::Place {
                            surface: before.surface,
                            workspace: before.workspace_id,
                            at: Point {
                                x: before.pending_geometry->0.x,
                                y: before.pending_geometry->0.y,
                            },
                        },
                    )
                }
                &&& !late ==> after == before
            },
        r@.len() > 0 ==> final(s).needs_redraw,
        r@.len() == 0 ==> final(s).needs_redraw == old(s).needs_redraw,
        r@.len() > 0 ==> final(s).apps@ != old(s).apps@,
        final(s).workspaces == old(s).workspaces,
{
    lemma_late_are_placed(old(s).apps@, now);
    let apps = old(s).apps@;
    assert forall|i: int| 0 <= i < apps.len() implies final(s).apps@[i] == committed(
        #[trigger] apps[i],
        now,
    ) by {}
    if r@.len() > 0 {
        let i = choose|i: int| 0 <= i < apps.len() && timed_out(#[trigger] apps[i], now);
        assert(final(s).apps@[i].pending_geometry is None);
        assert(apps[i].pending_geometry is Some);
    }
}

proof fn lemma_late_are_placed(apps: Seq<AppWindow>, now: u64)
    ensures
        forall|i: int|
            0 <= i < apps.len() && timed_out(#[trigger] apps[i], now) ==> commit_requests(
                apps,
                now,
            ).contains(
                Request::Place {
                    surface: apps[i].surface,
                    workspace: apps[i].workspace_id,
                    at: Point {
                        x: apps[i].pending_geometry->0.x,
                        y: apps[i].pending_geometry->0.y,
                    },
                },
            ),
        commit_requests(apps, now).len() > 0 ==> exists|i: int|
            0 <= i < apps.len() && timed_out(#[trigger] apps[i], now),
    decreases apps.len(),
{
    if apps.len() > 0 {
        let rest = apps.drop_last();
        lemma_late_are_placed(rest, now);
        let all = commit_requests(apps, now);
        let before = commit_requests(rest, now);
        assert forall|x: Request| before.contains(x) implies all.contains(x) by {
            assert(all[before.index_of(x)] == x);
        }
        assert forall|i: int| 0 <= i < apps.len() && timed_out(#[trigger] apps[i], now) implies all.contains(
            Request::Place {
                surface: apps[i].surface,
                workspace: apps[i].workspace_id,
                at: Point {
                    x: apps[i].pending_geometry->0.x,
                    y: apps[i].pending_geometry->0.y,
                },
            },
        ) by {
            if i < rest.len() {
                assert(rest[i] == apps[i]);
            } else {
                assert(all.last() == (Request::Place {
                    surface: apps[i].surface,
                    workspace: apps[i].workspace_id,
                    at: Point {
                        x: apps[i].pending_geometry->0.x,
                        y: apps[i].pending_geometry->0.y,
                    },
                }));
            }
        }
        if all.len() > 0 {
            if timed_out(apps.last(), now) {
                assert(timed_out(apps[apps.len() - 1], now));
            } else {
                let i = choose|i: int| 0 <= i < rest.len() && timed_out(#[trigger] rest[i], now);
                assert(timed_out(apps[i], now));
            }
        }
    }
}

/// Clients are told of each workspace once, by ascending number, with its name or,
/// where it has none, one that ends in its number, and of which one is active.
pub proof fn every_workspace_is_shown<S>(s: EmskinState<S>, r: Vec<WorkspaceInfo>)
    requires
        call_ensures(EmskinState::<S>::refresh_workspace_state, (&s,), r),
        s.workspaces.wf(),
    ensures
        forall|i: int, j: int| 0 <= i < j < r@.len() ==> r@[i].id < r@[j].id,
        forall|i: int|
            0 <= i < r@.len() ==> {
                let info = #[trigger] r@[i];
                let known = s.workspaces.inactive@.contains_key(info.id);
                let name = if known {
                    s.workspaces.inactive@[info.id].name@
                } else {
                    s.workspaces.active.name@
                };
                &&& known || info.id == s.workspaces.active_id
                &&& info.active <==> info.id == s.workspaces.active_id
                &&& name.len() > 0 ==> info.name@ == name
                &&& name.len() == 0 ==> info.name@ == "Workspace "@ + decimal(info.id as nat)
            },
        exists|i: int| 0 <= i < r@.len() && (#[trigger] r@[i]).id == s.workspaces.active_id,
        forall|id: u64| #[trigger]
            s.workspaces.inactive@.contains_key(id) ==> exists|i: int|
                0 <= i < r@.len() && (#[trigger] r@[i]).id == id,
{
    let all = s.workspaces.all();
    assert(all.contains_key(s.workspaces.active_id));
    assert forall|i: int| 0 <= i < r@.len() implies {
        let info = #[trigger] r@[i];
        &&& info@.id == info.id && info@.name == info.name@ && info@.active == info.active
        &&& all.contains_key(info.id)
    } by {
        assert(all.contains_key(r@[i]@.id));
    }
    assert forall|id: u64| #[trigger] s.workspaces.inactive@.contains_key(id) implies exists|i: int|
        0 <= i < r@.len() && (#[trigger] r@[i]).id == id by {
        assert(all.contains_key(id));
    }
}

proof fn lemma_listed_is_a_window(apps: Seq<AppWindow>, ws: u64, window_id: u64)
    requires
        app_ids_in(apps, ws).contains(window_id),
    ensures
        exists|i: int|
            0 <= i < apps.len() && (#[trigger] apps[i]).workspace_id == ws && apps[i].window_id
                == window_id,
    decreases apps.len(),
{
    let all = app_ids_in(apps, ws);
    let k = all.index_of(window_id);
    if apps.len() > 0 {
        let rest = app_ids_in(apps.drop_last(), ws);
        if k < rest.len() {
            assert(rest[k] == window_id);
            lemma_listed_is_a_window(apps.drop_last(), ws, window_id);
            let i = choose|i: int|
                0 <= i < apps.drop_last().len() && (#[trigger] apps.drop_last()[i]).workspace_id
                    == ws && apps.drop_last()[i].window_id == window_id;
            assert(apps[i].workspace_id == ws);
        } else {
            assert(apps[apps.len() - 1].workspace_id == ws);
        }
    }
}

proof fn lemma_only_deaths_are_told(ids: Seq<u64>, apps: Seq<AppWindow>, k: int)
    requires
        0 <= k < death_requests(ids, apps).len(),
    ensures
        tells_of_a_loss(death_requests(ids, apps)[k], ids, apps),
    decreases ids.len(),
{
    let told = death_requests(ids, apps);
    let fewer = ids.drop_last();
    let rest = death_requests(fewer, apps);
    let windows = destroyed_windows(apps, ids.last());
    assert forall|id: u64| fewer.contains(id) implies #[trigger] ids.contains(id) by {
        assert(ids[fewer.index_of(id)] == id);
    }
    assert(ids[ids.len() - 1] == ids.last());
    if k < rest.len() {
        assert(told[k] == rest[k]);
        lemma_only_deaths_are_told(fewer, apps, k);
        if let Request::Send(OutgoingMessage::WindowDestroyed { window_id }) = rest[k] {
            let i = choose|i: int|
                0 <= i < apps.len() && (#[trigger] apps[i]).window_id == window_id
                    && fewer.contains(apps[i].workspace_id);
            assert(ids.contains(apps[i].workspace_id));
        }
    } else if k < rest.len() + windows.len() {
        let window_id = app_ids_in(apps, ids.last())[k - rest.len()];
        assert(told[k] == windows[k - rest.len()]);
        lemma_listed_is_a_window(apps, ids.last(), window_id);
        let i = choose|i: int|
            0 <= i < apps.len() && (#[trigger] apps[i]).workspace_id == ids.last()
                && apps[i].window_id == window_id;
        assert(ids.contains(apps[i].workspace_id));
    }
}

/// The request tells Emacs that one of these workspaces is gone, or a window in
/// one of them.
pub open spec fn tells_of_a_loss(request: Request, ids: Seq<u64>, apps: Seq<AppWindow>) -> bool {
    match request {
        Request::Send(OutgoingMessage::WorkspaceDestroyed { workspace_id }) => ids.contains(
            workspace_id,
        ),
        Request::Send(OutgoingMessage::WindowDestroyed { window_id }) => exists|i: int|
            0 <= i < apps.len() && (#[trigger] apps[i]).window_id == window_id && ids.contains(
                apps[i].workspace_id,
            ),
        _ => false,
    }
}

/// Removing some workspaces takes exactly those and the windows in them away, and
/// tells Emacs of each workspace and of each window, and of nothing else.
pub proof fn removed_workspaces_take_their_windows<S>(
    s: &mut EmskinState<S>,
    ids: &[u64],
    r: Vec<Request>,
    id: u64,
    i: int,
    k: int,
)
    requires
        call_ensures(EmskinState::<S>::destroy_workspaces, (s, ids), r),
        old(s).workspaces.wf(),
        0 <= i < old(s).apps@.len(),
    ensures
        final(s).workspaces.inactive@.contains_key(id) == (old(
            s,
        ).workspaces.inactive@.contains_key(id) && !ids@.contains(id)),
        final(s).workspaces.inactive@.contains_key(id) ==> final(s).workspaces.inactive@[id] == old(
            s,
        ).workspaces.inactive@[id],
        final(s).workspaces.active == old(s).workspaces.active,
        final(s).workspaces.active_id == old(s).workspaces.active_id,
        final(s).apps@ == old(s).apps@.filter(|a: AppWindow| !ids@.contains(a.workspace_id)),
        ids@.contains(id) ==> r@.contains(
            Request::Send(OutgoingMessage::WorkspaceDestroyed { workspace_id: id }),
        ),
        ids@.contains(old(s).apps@[i].workspace_id) ==> r@.contains(
            Request::Send(
                OutgoingMessage::WindowDestroyed { window_id: old(s).apps@[i].window_id },
            ),
        ),
        0 <= k < r@.len() ==> tells_of_a_loss(r@[k], ids@, old(s).apps@),
{
    assert(ids@.to_set().contains(id) == ids@.contains(id));
    if ids@.contains(id) {
        lemma_deaths_are_told(ids@, old(s).apps@, id);
    }
    if ids@.contains(old(s).apps@[i].workspace_id) {
        lemma_windows_are_told(ids@, old(s).apps@, old(s).apps@[i].workspace_id, i);
    }
    if 0 <= k < r@.len() {
        lemma_only_deaths_are_told(ids@, old(s).apps@, k);
    }
}

/// The workspaces kept aside whose frame is gone are listed in ascending order,
/// and no others.
pub proof fn lost_frames_are_listed<S>(
    s: EmskinState<S>,
    dead: &[SurfaceId],
    r: Vec<u64>,
    id: u64,
)
    requires
        call_ensures(EmskinState::<S>::dead_workspaces, (&s, dead), r),
        s.workspaces.wf(),
    ensures
        r@.contains(id) == lost_its_frame(s.workspaces.inactive@, dead@, id),
        forall|i: int, j: int| 0 <= i < j < r@.len() ==> r@[i] < r@[j],
{
}

/// Emacs is told of no workspace as gone whose frame lives, and of no window as
/// gone that stands elsewhere.
pub proof fn living_workspaces_are_not_reported<S>(
    s: &mut EmskinState<S>,
    dead: &[SurfaceId],
    r: Vec<Request>,
    k: int,
)
    requires
        call_ensures(EmskinState::<S>::detect_dead_workspaces, (s, dead), r),
        old(s).workspaces.wf(),
        0 <= k < r@.len(),
    ensures
        r@[k] matches Request::Send(OutgoingMessage::WorkspaceDestroyed { workspace_id })
            ==> lost_its_frame(old(s).workspaces.inactive@, dead@, workspace_id),
        r@[k] matches Request::Send(OutgoingMessage::WindowDestroyed { window_id }) ==> exists|i: int|
            0 <= i < old(s).apps@.len() && (#[trigger] old(s).apps@[i]).window_id == window_id
                && lost_its_frame(
                old(s).workspaces.inactive@,
                dead@,
                old(s).apps@[i].workspace_id,
            ),
{
    let inactive = old(s).workspaces.inactive@;
    let apps = old(s).apps@;
    let gone = (old(s).workspaces.active.emacs_surface matches Some(e) && dead@.contains(e))
        && old(s).initial_size_settled;
    let ids = choose|ids: Seq<u64>| #[trigger]
        are_the_dead(ids, inactive, dead@) && after_deaths(*old(s), *final(s), r@, ids, gone);
    let told = death_requests(ids, apps);
    assert forall|id: u64| #[trigger] ids.contains(id) <==> lost_its_frame(
        inactive,
        dead@,
        id,
    ) by {}
    if k < told.len() {
        assert(r@[k] == told[k]);
        lemma_only_deaths_are_told(ids, apps, k);
        if let Request::Send(OutgoingMessage::WindowDestroyed { window_id }) = r@[k] {
            let i = choose|i: int|
                0 <= i < apps.len() && (#[trigger] apps[i]).window_id == window_id && ids.contains(
                    apps[i].workspace_id,
                );
            assert(lost_its_frame(inactive, dead@, apps[i].workspace_id));
        }
    }
}

} // verus!
