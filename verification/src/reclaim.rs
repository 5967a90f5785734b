//! Destroying workspaces that are no longer needed.

use vstd::prelude::*;

use crate::activity::EntryModel;
use crate::ids::{ActivityId, OutputId, WorkspaceId};
use crate::layout::{Layout, LayoutModel};
use crate::monitor::Monitor;
use crate::pool::{PoolModel, WorkspacePool};
use crate::view::{ViewModel, WorkspaceView};

verus! {

/// The predicate that picks the workspaces a sweep of view `v` leaves alone: the bookends, the
/// active one, and those with windows, a name or a second activity.
pub open spec fn kept(pool: PoolModel, v: ViewModel, leading: bool) -> spec_fn(WorkspaceId) -> bool {
    |id: WorkspaceId|
        (leading && id == v.ids[0]) || id == v.ids.last() || id == v.active || pool.busy(id)
            || !pool.exclusive(id)
}

/// The opposite of [`kept`].
pub open spec fn pruned(pool: PoolModel, v: ViewModel, leading: bool) -> spec_fn(
    WorkspaceId,
) -> bool {
    |id: WorkspaceId|
        !((leading && id == v.ids[0]) || id == v.ids.last() || id == v.active || pool.busy(id)
            || !pool.exclusive(id))
}

/// View `v` without the stray empty workspaces in its middle.
pub open spec fn swept(pool: PoolModel, v: ViewModel, leading: bool) -> ViewModel {
    ViewModel {
        ids: v.ids.filter(kept(pool, v, leading)),
        active: v.active,
        previous: match v.previous {
            Some(p) => if pruned(pool, v, leading)(p) {
                None
            } else {
                Some(p)
            },
            None => None,
        },
    }
}

/// Whether view `v` is nothing but two empty workspaces, the second of which can go.
pub open spec fn doubled(pool: PoolModel, v: ViewModel, leading: bool) -> bool {
    &&& leading
    &&& v.ids.len() == 2
    &&& !pool.busy(v.ids[0])
    &&& !pool.busy(v.ids[1])
    &&& pool.exclusive(v.ids[1])
}

/// Every monitor of output `out` with its workspace animation ended.
pub open spec fn snap_on(monitors: Seq<Monitor>, out: OutputId) -> Seq<Monitor> {
    Seq::new(
        monitors.len(),
        |i: int|
            if monitors[i].output.id == out {
                monitors[i].snapped()
            } else {
                monitors[i]
            },
    )
}

/// Whether an empty workspace at `pos` of `v` has no business there: it is neither a bookend nor
/// the active one. In a view of two empty workspaces under a leading one, the second has to go.
pub open spec fn out_of_place(v: ViewModel, pos: int, leading: bool) -> bool {
    if leading && v.ids.len() == 2 && pos == 1 {
        true
    } else {
        !(v.ids.len() == 1 || pos == v.ids.len() - 1 || (leading && pos == 0) || pos
            == v.active_position())
    }
}

impl LayoutModel {
    /// Workspace `id` gone from the pool and from every view. One that several activities share
    /// stays.
    pub open spec fn destroy(self, id: WorkspaceId) -> LayoutModel {
        if self.pool.shared(id) {
            self
        } else {
            LayoutModel {
                acts: self.acts.drop_workspace(id),
                pool: self.pool.remove(id),
                ..self
            }
        }
    }

    /// Every workspace in `ids` destroyed.
    pub open spec fn destroy_all(self, ids: Seq<WorkspaceId>) -> LayoutModel
        decreases ids.len(),
    {
        if ids.len() == 0 {
            self
        } else {
            self.destroy_all(ids.drop_last()).destroy(ids.last())
        }
    }

    /// The active view of monitor `mon` without stray empty workspaces.
    pub open spec fn clean_up(self, mon: int) -> LayoutModel {
        let m = self.monitors[mon];
        let leading = m.empty_workspace_above_first;
        match self.active_view(m.output.id) {
            Some(v) => if v.ids.len() == 0 {
                self
            } else {
                let v1 = swept(self.pool, v, leading);
                let gone = v.ids.filter(pruned(self.pool, v, leading));
                if doubled(self.pool, v1, leading) {
                    self.with_view(self.acts.active, m.output.id, v1.remove_at(1)).destroy_all(
                        gone.push(v1.ids[1]),
                    )
                } else {
                    self.with_view(self.acts.active, m.output.id, v1).destroy_all(gone)
                }
            },
            None => self,
        }
    }

    /// The workspace animation of output `out` ended.
    pub open spec fn snap_output(self, out: OutputId) -> LayoutModel {
        LayoutModel { monitors: snap_on(self.monitors, out), ..self }
    }

    /// The entry of activity `act` whose view holds workspace `id`.
    pub open spec fn holding_entry(self, act: ActivityId, id: WorkspaceId) -> Option<EntryModel> {
        match self.acts.get(act) {
            Some(a) => match crate::search::find(a.views, crate::activity::holding(id)) {
                Some(i) => Some(a.views[i]),
                None => None,
            },
            None => None,
        }
    }

    /// Workspace `id` destroyed if it is empty, belongs to one activity only, and is out of place
    /// in that activity's view.
    pub open spec fn reclaim(self, id: WorkspaceId) -> LayoutModel {
        if !self.pool.exclusive(id) || self.pool.busy(id) {
            self
        } else {
            let act = self.pool.get(id).unwrap().activities[0];
            match self.holding_entry(act, id) {
                Some(e) => if out_of_place(
                    e.view,
                    e.view.position_of(id).unwrap(),
                    self.leading_empty(e.output),
                ) {
                    if act == self.acts.active {
                        self.snap_output(e.output).destroy(id)
                    } else {
                        self.destroy(id)
                    }
                } else {
                    self
                },
                None => self,
            }
        }
    }

    /// Every workspace in `ids` reclaimed, one after the other.
    pub open spec fn reclaim_all(self, ids: Seq<WorkspaceId>) -> LayoutModel
        decreases ids.len(),
    {
        if ids.len() == 0 {
            self
        } else {
            self.reclaim_all(ids.drop_last()).reclaim(ids.last())
        }
    }

    /// Activity `act`'s view of output `out` brought down from two empty workspaces to one.
    pub open spec fn collapse(self, act: ActivityId, out: OutputId) -> LayoutModel {
        match self.view_of(act, out) {
            Some(v) => if v.ids.len() == 2 && self.pool.has(v.ids[0]) && doubled(
                self.pool,
                v,
                self.leading_empty(out),
            ) {
                if act == self.acts.active {
                    self.snap_output(out).destroy(v.ids[1])
                } else {
                    self.destroy(v.ids[1])
                }
            } else {
                self
            },
            None => self,
        }
    }
}

/// Dropping a workspace changes neither which activities there are nor their order.
pub broadcast proof fn lemma_destroy_leads(s: LayoutModel, id: WorkspaceId)
    ensures
        s.leads_to(#[trigger] s.destroy(id)),
{
    assert(s.acts.drop_workspace(id).ids() =~= s.acts.ids());
}

/// Destroying several workspaces keeps the frame.
pub broadcast proof fn lemma_destroy_all_leads(s: LayoutModel, ids: Seq<WorkspaceId>)
    ensures
        s.leads_to(#[trigger] s.destroy_all(ids)),
    decreases ids.len(),
{
    broadcast use lemma_destroy_leads;

    if ids.len() > 0 {
        lemma_destroy_all_leads(s, ids.drop_last());
    }
}

/// Replacing a view keeps the frame.
pub broadcast proof fn lemma_with_view_leads(s: LayoutModel, act: ActivityId, out: OutputId, v: ViewModel)
    ensures
        s.leads_to(#[trigger] s.with_view(act, out, v)),
{
    crate::bookends::lemma_set_view_ids(s.acts, act, out, v);
}

/// Cleaning up keeps the frame.
pub broadcast proof fn lemma_clean_up_leads(s: LayoutModel, mon: int)
    ensures
        s.leads_to(#[trigger] s.clean_up(mon)),
{
    broadcast use {lemma_destroy_all_leads, lemma_with_view_leads};

}

/// Reclaiming keeps the frame.
pub broadcast proof fn lemma_reclaim_leads(s: LayoutModel, id: WorkspaceId)
    ensures
        s.leads_to(#[trigger] s.reclaim(id)),
{
    broadcast use lemma_destroy_leads;

}

/// Reclaiming several workspaces keeps the frame.
pub broadcast proof fn lemma_reclaim_all_leads(s: LayoutModel, ids: Seq<WorkspaceId>)
    ensures
        s.leads_to(#[trigger] s.reclaim_all(ids)),
    decreases ids.len(),
{
    broadcast use lemma_reclaim_leads;

    if ids.len() > 0 {
        lemma_reclaim_all_leads(s, ids.drop_last());
    }
}

/// Collapsing a view keeps the frame.
pub broadcast proof fn lemma_collapse_leads(s: LayoutModel, act: ActivityId, out: OutputId)
    ensures
        s.leads_to(#[trigger] s.collapse(act, out)),
{
    broadcast use lemma_destroy_leads;

}

/// Splits `v`'s workspaces into those a sweep keeps and those it prunes.
fn sweep(pool: &WorkspacePool, v: &WorkspaceView, leading: bool) -> (r: (
    Vec<WorkspaceId>,
    Vec<WorkspaceId>,
))
    requires
        v@.ids.len() > 0,
    ensures
        r.0@ == v@.ids.filter(kept(pool@, v@, leading)),
        r.1@ == v@.ids.filter(pruned(pool@, v@, leading)),
{
    let n: usize = v.len();
    let first = v.id_at(0);
    let last = v.id_at(n - 1);
    let active = v.active();
    let mut stay: Vec<WorkspaceId> = Vec::new();
    let mut gone: Vec<WorkspaceId> = Vec::new();
    let mut i: usize = 0;
    while i < n
        invariant
            n == v@.ids.len(),
            n > 0,
            i <= n,
            first == v@.ids[0],
            last == v@.ids.last(),
            active == v@.active,
            stay@ == v@.ids.take(i as int).filter(kept(pool@, v@, leading)),
            gone@ == v@.ids.take(i as int).filter(pruned(pool@, v@, leading)),
        decreases n - i,
    {
        let id = v.id_at(i);
        proof {
            assert(v@.ids.take(i + 1).drop_last() =~= v@.ids.take(i as int));
            assert(v@.ids.take(i + 1).last() == id);
            reveal(Seq::filter);
        }
        if (leading && id == first) || id == last || id == active || pool.is_busy(id)
            || !pool.workspace_is_safe_to_reclaim(id) {
            stay.push(id);
        } else {
            gone.push(id);
        }
        i = i + 1;
    }
    assert(v@.ids.take(i as int) =~= v@.ids);
    (stay, gone)
}

impl WorkspaceView {
    /// Keeps only the workspaces in `ids`, which still hold the active one; `forget` tells whether
    /// the previously active one is not among them.
    pub fn narrow(&self, ids: Vec<WorkspaceId>, forget: bool) -> (v: WorkspaceView)
        ensures
            v@ == (ViewModel {
                ids: ids@,
                active: self@.active,
                previous: if forget {
                    None
                } else {
                    self@.previous
                },
            }),
    {
        let prev = if forget {
            None
        } else {
            self.previous()
        };
        WorkspaceView::from_parts(ids, self.active(), prev)
    }
}

impl Layout {
    /// Destroys workspace `id`: it leaves every view, and a view that held nothing else goes with
    /// it. A workspace that several activities share stays as it is.
    pub(crate) fn destroy(&mut self, id: WorkspaceId)
        ensures
            final(self)@ == old(self)@.destroy(id),
    {
        if !self.workspaces.is_shared(id) {
            self.activities.drop_workspace(id);
            self.workspaces.remove(id);
        }
    }

    /// Destroys every workspace in `ids`, except those that several activities share.
    pub(crate) fn destroy_workspaces_cross_activity(&mut self, ids: &Vec<WorkspaceId>)
        ensures
            final(self)@ == old(self)@.destroy_all(ids@),
    {
        let mut i: usize = 0;
        while i < ids.len()
            invariant
                i <= ids@.len(),
                self@ == old(self)@.destroy_all(ids@.take(i as int)),
            decreases ids@.len() - i,
        {
            assert(ids@.take(i + 1).drop_last() =~= ids@.take(i as int));
            self.destroy(ids[i]);
            i = i + 1;
        }
        assert(ids@.take(i as int) =~= ids@);
    }

    /// Destroys the stray empty workspaces in the active view of monitor `mon_idx`.
    pub(crate) fn clean_up_workspaces_on(&mut self, mon_idx: usize)
        requires
            mon_idx < old(self)@.monitors.len(),
        ensures
            final(self)@ == old(self)@.clean_up(mon_idx as int),
    {
        let out = self.monitors[mon_idx].output.id;
        let leading = self.monitors[mon_idx].empty_workspace_above_first;
        let act = self.activities.active;
        if let Some(v) = self.copy_view(act, out) {
            if v.len() == 0 {
                return;
            }
            let ghost prev = v@.previous;
            let forget = match v.previous() {
                Some(p) => !((leading && p == v.id_at(0)) || p == v.id_at(v.len() - 1) || p
                    == v.active() || self.workspaces.is_busy(p)
                    || !self.workspaces.workspace_is_safe_to_reclaim(p)),
                None => false,
            };
            let (stay, gone) = sweep(&self.workspaces, &v, leading);
            let mut doomed: Vec<WorkspaceId> = gone;
            let mut swept_view = v.narrow(stay, forget);
            assert(swept_view@ == swept(self@.pool, v@, leading));
            if leading && swept_view.len() == 2 {
                let first = swept_view.id_at(0);
                let second = swept_view.id_at(1);
                if !self.workspaces.is_busy(first) && !self.workspaces.is_busy(second)
                    && self.workspaces.workspace_is_safe_to_reclaim(second) {
                    let _gone = swept_view.remove_at(1);
                    doomed.push(second);
                }
            }
            self.put_view(act, out, swept_view);
            self.destroy_workspaces_cross_activity(&doomed);
        }
    }

    /// Ends the workspace animation of output `out`.
    fn snap_output(&mut self, out: OutputId)
        ensures
            final(self)@ == old(self)@.snap_output(out),
    {
        let mut i: usize = 0;
        while i < self.monitors.len()
            invariant
                i <= self.monitors@.len(),
                self.monitors@.len() == old(self).monitors@.len(),
                forall|j: int|
                    0 <= j < i ==> #[trigger] self.monitors@[j] == snap_on(
                        old(self).monitors@,
                        out,
                    )[j],
                forall|j: int|
                    i <= j < self.monitors@.len() ==> #[trigger] self.monitors@[j] == old(self).monitors@[j],
                self@ == (LayoutModel { monitors: self.monitors@, ..old(self)@ }),
            decreases self.monitors@.len() - i,
        {
            if self.monitors[i].output.id == out && self.monitors[i].is_animating() {
                self.monitors[i].workspace_switch = None;
            }
            i = i + 1;
        }
        assert(self.monitors@ =~= snap_on(old(self).monitors@, out));
    }

    /// Destroys workspace `id` if it is empty, belongs to one activity only, and is out of place
    /// in that activity's view.
    pub(crate) fn reclaim(&mut self, id: WorkspaceId)
        ensures
            final(self)@ == old(self)@.reclaim(id),
    {
        if !self.workspaces.workspace_is_safe_to_reclaim(id) || self.workspaces.is_busy(id) {
            return;
        }
        let act = match self.workspaces.get(id) {
            Some(w) => w.activities[0],
            None => {
                return;
            },
        };
        let out = match self.activities.get(act) {
            Some(a) => match a.output_of(id) {
                Some(o) => o,
                None => {
                    return;
                },
            },
            None => {
                return;
            },
        };
        let cull = match self.activities.get(act) {
            Some(a) => {
                let i: usize = match a.entry_holding(id) {
                    Some(i) => i,
                    None => {
                        return;
                    },
                };
                proof {
                    crate::search::lemma_find_from(a@.views, crate::activity::holding(id), 0);
                }
                let v = &a.views[i].view;
                let leading = self.leads_with_empty(out);
                let pos: usize = match v.position_of(id) {
                    Some(p) => p,
                    None => {
                        return;
                    },
                };
                let n: usize = v.len();
                if leading && n == 2 && pos == 1 {
                    true
                } else {
                    !(n == 1 || pos == n - 1 || (leading && pos == 0) || pos == v.active_position())
                }
            },
            None => {
                return;
            },
        };
        if cull {
            if act == self.activities.active {
                self.snap_output(out);
            }
            self.destroy(id);
        }
    }

    /// Destroys those workspaces of `narrowed` that are empty, belong to one activity only, and
    /// are out of place in that activity's view.
    pub(crate) fn reclaim_unpinned_empty_workspaces(&mut self, narrowed: &Vec<WorkspaceId>)
        ensures
            final(self)@ == old(self)@.reclaim_all(narrowed@),
    {
        let mut i: usize = 0;
        while i < narrowed.len()
            invariant
                i <= narrowed@.len(),
                self@ == old(self)@.reclaim_all(narrowed@.take(i as int)),
            decreases narrowed@.len() - i,
        {
            assert(narrowed@.take(i + 1).drop_last() =~= narrowed@.take(i as int));
            self.reclaim(narrowed[i]);
            i = i + 1;
        }
        assert(narrowed@.take(i as int) =~= narrowed@);
    }

    /// Brings activity `act`'s view of output `out` down from two empty workspaces to one, where
    /// empty workspaces lead and the second belongs to one activity only.
    pub(crate) fn collapse_empty_exclusive_ewaf_len2_view(&mut self, act: ActivityId, out: OutputId)
        ensures
            final(self)@ == old(self)@.collapse(act, out),
    {
        let leading = self.leads_with_empty(out);
        let second = match self.activities.view_on(act, out) {
            Some(v) => {
                if v.len() != 2 {
                    return;
                }
                let first = v.id_at(0);
                let second = v.id_at(1);
                if !(leading && self.workspaces.contains(first) && !self.workspaces.is_busy(first)
                    && !self.workspaces.is_busy(second)
                    && self.workspaces.workspace_is_safe_to_reclaim(second)) {
                    return;
                }
                second
            },
            None => {
                return;
            },
        };
        if act == self.activities.active {
            self.snap_output(out);
        }
        self.destroy(second);
    }
}

} // verus!
