//! Moving workspaces between views and monitors.

use vstd::prelude::*;

use crate::activity::{ActivitiesModel, ActivityModel};
use crate::ids::{ActivityId, OutputId, WorkspaceId};
use crate::layout::{Layout, LayoutModel};
use crate::pool::PoolModel;
use crate::view::{ViewModel, WorkspaceView};

verus! {

/// Where workspace `id` goes into view `v`: above an empty workspace at the end if `id` itself is
/// not empty, at the very end otherwise.
pub open spec fn landing(pool: PoolModel, v: ViewModel, id: WorkspaceId) -> int {
    if pool.busy(id) && v.ids.len() > 0 && !pool.busy(v.ids.last()) {
        v.ids.len() - 1
    } else {
        v.ids.len() as int
    }
}

/// The predicate that picks an activity that shows workspace `id` on some output.
pub open spec fn shows_workspace(id: WorkspaceId) -> spec_fn(ActivityModel) -> bool {
    |a: ActivityModel| a.output_of(id) is Some
}

/// View `v` with `ids` put in above its last workspace.
pub open spec fn spliced(v: ViewModel, ids: Seq<WorkspaceId>) -> ViewModel {
    let n = v.ids.len() - 1;
    ViewModel { ids: v.ids.take(n) + ids + v.ids.skip(n), ..v }
}

impl LayoutModel {
    /// The output on which the first activity that shows workspace `id` shows it.
    pub open spec fn holding_output(self, id: WorkspaceId) -> Option<OutputId> {
        match crate::search::find(self.acts.list, shows_workspace(id)) {
            Some(i) => self.acts.list[i].output_of(id),
            None => None,
        }
    }

    /// Monitor `mon` with no workspace switch under way.
    pub open spec fn settle(self, mon: int) -> LayoutModel {
        LayoutModel { monitors: self.monitors.update(mon, self.monitors[mon].settled()), ..self }
    }

    /// Workspace `id` put into activity `act`'s view of output `out`, unless it is there.
    pub open spec fn install_into(self, act: ActivityId, out: OutputId, id: WorkspaceId) -> LayoutModel {
        match self.view_of(act, out) {
            Some(v) => if v.position_of(id) is Some {
                self
            } else {
                self.with_view(act, out, v.insert(landing(self.pool, v, id), id))
            },
            None => self,
        }
    }

    /// The active view of monitor `mon` without its entry at `idx`, which stays in the pool.
    /// Bookends are put back first, stray empty workspaces destroyed last.
    pub open spec fn detach(self, mon: int, idx: int) -> LayoutModel {
        let s1 = self.detach_prepared(mon, idx);
        let m = s1.monitors[mon];
        let pos = if m.empty_workspace_above_first && idx == 0 {
            1
        } else {
            idx
        };
        match s1.active_view(m.output.id) {
            Some(v) => if pos < v.ids.len() {
                let s2 = s1.with_view(s1.acts.active, m.output.id, v.remove_at(pos));
                LayoutModel { pool: s2.pool.unbind(v.ids[pos]), ..s2 }.settle(mon).clean_up(mon)
            } else {
                s1
            },
            None => s1,
        }
    }

    /// The active view of monitor `mon` with the bookends that taking its entry at `idx` out
    /// would cost.
    pub open spec fn detach_prepared(self, mon: int, idx: int) -> LayoutModel {
        let m = self.monitors[mon];
        match self.active_view(m.output.id) {
            Some(v) => {
                let s1 = if idx == v.ids.len() - 1 {
                    self.add_workspace_bottom(mon)
                } else {
                    self
                };
                if m.empty_workspace_above_first && idx == 0 {
                    s1.add_workspace_top(mon)
                } else {
                    s1
                }
            },
            None => self,
        }
    }

    /// Workspace `id` put into the active view of monitor `mon` at `idx`, never below the last
    /// empty workspace nor above a leading one.
    pub open spec fn attach(self, mon: int, id: WorkspaceId, idx: int, activate: bool) -> LayoutModel {
        let m = self.monitors[mon];
        let out = m.output.id;
        let act = self.acts.active;
        let s1 = LayoutModel { pool: self.pool.bind(id, m.output), ..self };
        match s1.active_view(out) {
            Some(v) => if v.ids.len() == 0 {
                s1
            } else {
                let at = if idx >= v.ids.len() {
                    v.ids.len() - 1
                } else {
                    idx
                };
                let lead = at == 0 && m.empty_workspace_above_first;
                let s2 = if lead {
                    s1.add_workspace_top(mon)
                } else {
                    s1
                };
                let at2 = if lead {
                    1
                } else {
                    at
                };
                match s2.active_view(out) {
                    Some(v2) => {
                        let v3 = v2.insert(at2, id);
                        let v4 = if activate {
                            v3.activate(at2)
                        } else {
                            v3
                        };
                        s2.with_view(act, out, v4).settle(mon).clean_up(mon)
                    },
                    None => s2,
                }
            },
            None => s1,
        }
    }

    /// The workspaces `ids` put into the active view of monitor `mon`, above its last one.
    pub open spec fn append(self, mon: int, ids: Seq<WorkspaceId>) -> LayoutModel {
        let m = self.monitors[mon];
        let out = m.output.id;
        let act = self.acts.active;
        if ids.len() == 0 {
            self
        } else {
            let s1 = LayoutModel { pool: self.pool.bind_all(ids, m.output), ..self };
            match s1.active_view(out) {
                Some(v) => if v.ids.len() == 0 {
                    s1
                } else {
                    let tail_focused = v.active_position() == v.ids.len() - 1;
                    let v1 = spliced(v, ids);
                    let s2 = s1.with_view(act, out, v1);
                    let s3 = if m.empty_workspace_above_first && s2.pool.busy(v1.ids[0]) {
                        s2.add_workspace_top(mon)
                    } else {
                        s2
                    };
                    match s3.active_view(out) {
                        Some(v3) => {
                            let s4 = if tail_focused {
                                s3.with_view(act, out, v3.set_active_at(v3.ids.len() - 1))
                            } else {
                                s3
                            };
                            s4.settle(mon).clean_up(mon)
                        },
                        None => s3,
                    }
                },
                None => s1,
            }
        }
    }
}

/// A view that was just replaced is the one that is there.
pub proof fn lemma_view_after_set(s: ActivitiesModel, act: ActivityId, out: OutputId, v: ViewModel)
    requires
        s.view_of(act, out) is Some,
    ensures
        s.set_view(act, out, v).view_of(act, out) == Some(v),
{
    let n = crate::activity::named(act);
    crate::search::lemma_find_from(s.list, n, 0);
    let i = s.pos(act).unwrap();
    let a = s.list[i];
    let k = crate::activity::keyed(out);
    crate::search::lemma_find_from(a.views, k, 0);
    let b = a.set_view(out, v);
    crate::search::lemma_find_from(b.views, k, 0);
    let t = s.set_view(act, out, v);
    crate::search::lemma_find_from(t.list, n, 0);
    let j = a.view_pos(out).unwrap();
    assert(b.views[j].output == out);
    assert(b.view_pos(out) == Some(j)) by {
        let j2 = b.view_pos(out).unwrap();
        if j2 < j {
            assert(b.views[j2] == a.views[j2]);
        }
    }
    assert(t.list[i].id == act);
    assert(t.pos(act) == Some(i)) by {
        let i2 = t.pos(act).unwrap();
        if i2 < i {
            assert(t.list[i2] == s.list[i2]);
        }
    }
}

/// Replacing one activity's view leaves every other view alone.
pub proof fn lemma_view_after_set_other(
    s: ActivitiesModel,
    act: ActivityId,
    out: OutputId,
    v: ViewModel,
    act2: ActivityId,
    out2: OutputId,
)
    requires
        act != act2 || out != out2,
    ensures
        s.set_view(act, out, v).view_of(act2, out2) == s.view_of(act2, out2),
{
    let n = crate::activity::named(act2);
    let t = s.set_view(act, out, v);
    crate::search::lemma_find_from(s.list, crate::activity::named(act), 0);
    crate::search::lemma_find_from(s.list, n, 0);
    crate::search::lemma_find_from(t.list, n, 0);
    if let Some(i) = s.pos(act) {
        let a = s.list[i];
        crate::search::lemma_find_from(a.views, crate::activity::keyed(out), 0);
        let b = a.set_view(out, v);
        assert(t.list =~= s.list.update(i, b));
        crate::search::lemma_find_from(a.views, crate::activity::keyed(out2), 0);
        crate::search::lemma_find_from(b.views, crate::activity::keyed(out2), 0);
        assert forall|k: int| 0 <= k < s.list.len() implies (#[trigger] t.list[k]).id
            == s.list[k].id by {}
        assert forall|k: int| 0 <= k < b.views.len() implies (#[trigger] b.views[k]).output
            == a.views[k].output by {}
        match (s.pos(act2), t.pos(act2)) {
            (Some(x), Some(y)) => {
                if x < y {
                    assert(t.list[x].id == act2);
                } else if y < x {
                    assert(s.list[y].id == act2);
                }
                assert(x == y);
            },
            (Some(x), None) => {
                assert(t.list[x].id == act2);
            },
            (None, Some(y)) => {
                assert(s.list[y].id == act2);
            },
            (None, None) => {},
        }
        if act == act2 {
            match (a.view_pos(out2), b.view_pos(out2)) {
                (Some(x), Some(y)) => {
                    if x < y {
                        assert(b.views[x].output == out2);
                    } else if y < x {
                        assert(a.views[y].output == out2);
                    }
                    assert(x == y);
                },
                (Some(x), None) => {
                    assert(b.views[x].output == out2);
                },
                (None, Some(y)) => {
                    assert(a.views[y].output == out2);
                },
                (None, None) => {},
            }
        }
    }
}

/// After a new workspace went into a view, the view holds it.
pub proof fn lemma_view_after_mint(s: LayoutModel, mon: int, act: ActivityId, pos: int)
    requires
        0 <= mon < s.monitors.len(),
        s.view_of(act, s.monitors[mon].output.id) is Some,
    ensures
        s.mint_into(mon, act, pos).view_of(act, s.monitors[mon].output.id) == Some(
            s.view_of(act, s.monitors[mon].output.id).unwrap().insert(pos, s.pool.next_id()),
        ),
{
    let out = s.monitors[mon].output.id;
    let v = s.view_of(act, out).unwrap();
    lemma_view_after_set(s.acts, act, out, v.insert(pos, s.pool.next_id()));
}

impl WorkspaceView {
    /// Puts `ids` in above the last workspace.
    pub fn splice(&mut self, ids: &Vec<WorkspaceId>)
        requires
            old(self)@.ids.len() > 0,
        ensures
            final(self)@ == spliced(old(self)@, ids@),
    {
        let ghost v = self@;
        let start: usize = self.len() - 1;
        let mut i: usize = 0;
        while i < ids.len()
            invariant
                i <= ids@.len(),
                v.ids.len() > 0,
                start == v.ids.len() - 1,
                self@ == spliced(v, ids@.take(i as int)),
            decreases ids@.len() - i,
        {
            let n: usize = self.len();
            self.insert(n - 1, ids[i]);
            assert(self@.ids =~= spliced(v, ids@.take(i + 1)).ids);
            i = i + 1;
        }
        assert(ids@.take(i as int) =~= ids@);
    }
}

impl Layout {
    /// The output on which the first activity that shows workspace `id` shows it.
    pub fn workspace_holding_output(&self, id: WorkspaceId) -> (out: Option<OutputId>)
        ensures
            out == self@.holding_output(id),
    {
        let ghost p = shows_workspace(id);
        let mut i: usize = 0;
        while i < self.activities.list.len()
            invariant
                i <= self.activities.list@.len(),
                p == shows_workspace(id),
                crate::search::find(self@.acts.list, p) == crate::search::find_from(
                    self@.acts.list,
                    p,
                    i as int,
                ),
            decreases self.activities.list@.len() - i,
        {
            assert(self@.acts.list[i as int] == self.activities.list@[i as int]@);
            let here = self.activities.list[i].output_of(id);
            if here.is_some() {
                return here;
            }
            i = i + 1;
        }
        None
    }

    /// Where workspace `id` goes into view `v`: above an empty workspace at the end if `id` itself
    /// is not empty, at the very end otherwise.
    pub fn landing(&self, v: &WorkspaceView, id: WorkspaceId) -> (pos: usize)
        ensures
            pos as int == landing(self@.pool, v@, id),
            pos <= v@.ids.len(),
    {
        let n: usize = v.len();
        if self.workspaces.is_busy(id) && n > 0 && !self.workspaces.is_busy(v.id_at(n - 1)) {
            n - 1
        } else {
            n
        }
    }

    /// Puts workspace `id` into activity `act`'s view of output `out`, unless it is there. Returns
    /// whether it went in.
    pub(crate) fn view_insert_above_trailing_bookend(
        &mut self,
        act: ActivityId,
        out: OutputId,
        id: WorkspaceId,
    ) -> (pos: Option<usize>)
        ensures
            final(self)@ == old(self)@.install_into(act, out, id),
            match old(self)@.view_of(act, out) {
                Some(v) => if v.position_of(id) is Some {
                    pos is None
                } else {
                    pos is Some && pos.unwrap() as int == landing(old(self)@.pool, v, id)
                },
                None => pos is None,
            },
    {
        match self.copy_view(act, out) {
            Some(mut v) => {
                if v.position_of(id).is_some() {
                    return None;
                }
                let pos: usize = self.landing(&v, id);
                v.insert(pos, id);
                self.put_view(act, out, v);
                Some(pos)
            },
            None => None,
        }
    }

    /// Takes the entry at `view_idx` out of the active view of monitor `mon_idx` and returns it.
    /// The workspace stays in the pool.
    pub(crate) fn remove_workspace_from_monitor(&mut self, mon_idx: usize, view_idx: usize) -> (id: Option<
        WorkspaceId,
    >)
        requires
            mon_idx < old(self)@.monitors.len(),
            old(self)@.detach(mon_idx as int, view_idx as int).fits(),
        ensures
            final(self)@ == old(self)@.detach(mon_idx as int, view_idx as int),
            match old(self)@.active_view(old(self)@.monitors[mon_idx as int].output.id) {
                Some(v) => if view_idx < v.ids.len() {
                    id == Some(v.ids[view_idx as int])
                } else {
                    id is None
                },
                None => id is None,
            },
    {
        broadcast use {
            crate::bookends::lemma_mint_into_leads,
            crate::reclaim::lemma_clean_up_leads,
            crate::reclaim::lemma_with_view_leads,
        };

        let ghost start = self@;
        let out = self.monitors[mon_idx].output.id;
        let act = self.activities.active;
        let leading = self.monitors[mon_idx].empty_workspace_above_first;
        let len: usize = match self.activities.view_on(act, out) {
            Some(v) => v.len(),
            None => {
                return None;
            },
        };
        let mut at: usize = view_idx;
        if len > 0 && view_idx == len - 1 {
            proof {
                lemma_view_after_mint(start, mon_idx as int, act, len as int);
            }
            self.add_workspace_bottom_on(mon_idx);
        }
        if leading && view_idx == 0 {
            proof {
                lemma_view_after_mint(self@, mon_idx as int, act, 0);
            }
            self.add_workspace_top_on(mon_idx);
            at = 1;
        }
        assert(self@ == start.detach_prepared(mon_idx as int, view_idx as int));
        match self.copy_view(act, out) {
            Some(mut v) => {
                if at < v.len() {
                    let id = v.remove_at(at);
                    self.put_view(act, out, v);
                    self.workspaces.unbind(id);
                    self.monitors[mon_idx].workspace_switch = None;
                    self.clean_up_workspaces_on(mon_idx);
                    Some(id)
                } else {
                    None
                }
            },
            None => None,
        }
    }

    /// Puts workspace `id` into the active view of monitor `mon_idx` at `view_idx`.
    pub(crate) fn insert_workspace_onto_monitor(
        &mut self,
        mon_idx: usize,
        id: WorkspaceId,
        view_idx: usize,
        activate: bool,
    )
        requires
            mon_idx < old(self)@.monitors.len(),
            old(self)@.attach(mon_idx as int, id, view_idx as int, activate).fits(),
        ensures
            final(self)@ == old(self)@.attach(mon_idx as int, id, view_idx as int, activate),
    {
        broadcast use {
            crate::bookends::lemma_mint_into_leads,
            crate::reclaim::lemma_clean_up_leads,
            crate::reclaim::lemma_with_view_leads,
        };

        let output = self.monitors[mon_idx].output;
        let out = output.id;
        let act = self.activities.active;
        let leading = self.monitors[mon_idx].empty_workspace_above_first;
        self.workspaces.bind(id, &output);
        let len: usize = match self.activities.view_on(act, out) {
            Some(v) => v.len(),
            None => {
                return;
            },
        };
        if len == 0 {
            return;
        }
        let mut at: usize = if view_idx >= len {
            len - 1
        } else {
            view_idx
        };
        if at == 0 && leading {
            proof {
                lemma_view_after_mint(self@, mon_idx as int, act, 0);
            }
            self.add_workspace_top_on(mon_idx);
            at = 1;
        }
        if let Some(mut v) = self.copy_view(act, out) {
            v.insert(at, id);
            if activate {
                v.activate(at);
            }
            self.put_view(act, out, v);
            self.monitors[mon_idx].workspace_switch = None;
            self.clean_up_workspaces_on(mon_idx);
        }
    }

    /// Puts the workspaces `ids` into the active view of monitor `mon_idx`, above its last one.
    pub(crate) fn append_workspaces_to_monitor(&mut self, mon_idx: usize, ids: &Vec<WorkspaceId>)
        requires
            mon_idx < old(self)@.monitors.len(),
            old(self)@.append(mon_idx as int, ids@).fits(),
        ensures
            final(self)@ == old(self)@.append(mon_idx as int, ids@),
    {
        broadcast use {
            crate::bookends::lemma_mint_into_leads,
            crate::reclaim::lemma_clean_up_leads,
            crate::reclaim::lemma_with_view_leads,
        };

        if ids.len() == 0 {
            return;
        }
        let output = self.monitors[mon_idx].output;
        let out = output.id;
        let act = self.activities.active;
        let leading = self.monitors[mon_idx].empty_workspace_above_first;
        self.workspaces.bind_all(ids, &output);
        let ghost s1 = self@;
        if let Some(mut v) = self.copy_view(act, out) {
            let len: usize = v.len();
            if len == 0 {
                return;
            }
            let ghost v0 = v@;
            let tail_focused = v.active_position() == len - 1;
            v.splice(ids);
            let first = v.id_at(0);
            proof {
                lemma_view_after_set(s1.acts, act, out, v@);
            }
            self.put_view(act, out, v);
            if leading && self.workspaces.is_busy(first) {
                proof {
                    lemma_view_after_mint(self@, mon_idx as int, act, 0);
                }
                self.add_workspace_top_on(mon_idx);
            }
            if let Some(mut v3) = self.copy_view(act, out) {
                if tail_focused {
                    let n: usize = v3.len();
                    v3.set_active_at(n - 1);
                    self.put_view(act, out, v3);
                }
                self.monitors[mon_idx].workspace_switch = None;
                self.clean_up_workspaces_on(mon_idx);
            }
        }
    }
}

} // verus!
