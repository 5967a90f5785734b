//! Which activities a workspace belongs to.

use vstd::prelude::*;

use crate::errors::{
    AddWorkspaceToActivityError, MoveWorkspaceToActivityError, RemoveWorkspaceFromActivityError,
    SetWorkspaceActivitiesError, WorkspaceStickyError,
};
use crate::ids::{ActivityId, OutputId, WorkspaceId};
use crate::layout::{Layout, LayoutModel};
use crate::lookup::{ActivityReferenceArg, WorkspaceReference};
use crate::pool::{PoolModel, WorkspacePool};
use crate::reconcile::Stray;
use crate::switching::other_than;
use crate::workspace::WorkspaceModel;

verus! {

/// What toggling stickiness did.
#[derive(Clone, Copy, Debug, PartialEq, Eq, Structural)]
pub enum ToggleWorkspaceStickyOutcome {
    /// The workspace is sticky now.
    StickyOn {
        /// The workspace.
        ws_id: WorkspaceId,
        /// Whether it came to belong to the active activity by that.
        active_affected: bool,
    },
    /// The workspace is no longer sticky.
    StickyOff {
        /// The workspace.
        ws_id: WorkspaceId,
    },
}

/// The predicate that picks what is not in `acts`.
pub open spec fn absent_from(acts: Seq<ActivityId>) -> spec_fn(ActivityId) -> bool {
    |x: ActivityId| !acts.contains(x)
}

/// `s` with only the first occurrence of each element.
pub open spec fn distinct(s: Seq<ActivityId>) -> Seq<ActivityId>
    decreases s.len(),
{
    if s.len() == 0 {
        s
    } else {
        let rest = distinct(s.drop_last());
        if rest.contains(s.last()) {
            rest
        } else {
            rest.push(s.last())
        }
    }
}

impl PoolModel {
    /// Workspace `id` made sticky or the opposite.
    pub open spec fn set_sticky(self, id: WorkspaceId, sticky: bool) -> PoolModel {
        match self.get(id) {
            Some(w) => self.put(id, WorkspaceModel { sticky, ..w }),
            None => self,
        }
    }
}

impl LayoutModel {
    /// The activities of workspace `id`.
    pub open spec fn activities_of(self, id: WorkspaceId) -> Seq<ActivityId> {
        match self.pool.get(id) {
            Some(w) => w.activities,
            None => Seq::empty(),
        }
    }

    /// Workspace `id` shown by activity `act` on output `out`, unless the activity shows it
    /// somewhere. With `shift`, a workspace switch under way there is carried along.
    pub open spec fn enlist(self, act: ActivityId, out: OutputId, id: WorkspaceId, shift: bool) -> LayoutModel {
        match self.acts.get(act) {
            Some(a) => if a.output_of(id) is Some {
                self
            } else {
                let s = self.install_into(act, out, id);
                match (self.view_of(act, out), self.monitor_pos(out)) {
                    (Some(v), Some(m)) => if shift && v.position_of(id) is None && act
                        == self.acts.active {
                        LayoutModel {
                            monitors: s.monitors.update(
                                m,
                                s.monitors[m].shifted(
                                    crate::transfer::landing(self.pool, v, id),
                                ),
                            ),
                            ..s
                        }
                    } else {
                        s
                    },
                    _ => s,
                }
            },
            None => self,
        }
    }

    /// Workspace `id` added to activity `act`, which comes to show it on the output that shows it
    /// elsewhere.
    pub open spec fn join(self, id: WorkspaceId, act: ActivityId) -> LayoutModel {
        let old = self.activities_of(id);
        if old.contains(act) {
            self
        } else {
            let s1 = LayoutModel { pool: self.pool.set_activities(id, old.push(act)), ..self };
            match self.holding_output(id) {
                Some(out) => {
                    let s2 = s1.enlist(act, out, id, true);
                    if s2.pool.busy(id) && s2.monitor_pos(out) is Some {
                        s2.normalize()
                    } else {
                        s2
                    }
                },
                None => s1,
            }
        }
    }

    /// Where activity `act` shows workspace `id`.
    pub open spec fn stray(self, act: ActivityId, id: WorkspaceId) -> Option<Stray> {
        match self.holding_entry(act, id) {
            Some(e) => Some(Stray { act, output: e.output, id }),
            None => None,
        }
    }

    /// Whether taking `s` out drops the whole view of a connected output.
    pub open spec fn empties(self, s: Stray) -> bool {
        self.astray(s) && self.view_of(s.act, s.output).unwrap().ids.len() == 1
            && self.monitor_pos(s.output) is Some
    }

    /// Whether taking `s` out leaves other workspaces in the view.
    pub open spec fn thins(self, s: Stray) -> bool {
        self.astray(s) && self.view_of(s.act, s.output).unwrap().ids.len() != 1
    }

    /// Workspace `id` removed from activity `act`, which no longer shows it.
    pub open spec fn part(self, id: WorkspaceId, act: ActivityId) -> LayoutModel {
        let s1 = if act == self.acts.active {
            self.snap_all()
        } else {
            self
        };
        let s2 = LayoutModel {
            pool: s1.pool.set_activities(id, self.activities_of(id).filter(other_than(act))),
            ..s1
        };
        let s3 = match s2.stray(act, id) {
            Some(w) => {
                let s = s2.unshow(w);
                if s2.empties(w) {
                    s.ensure_all()
                } else if s2.thins(w) {
                    s.collapse(act, w.output)
                } else {
                    s
                }
            },
            None => s2,
        };
        s3.reclaim(id)
    }

    /// Workspace `id` no longer shown by the activities in `acts`.
    pub open spec fn unshow_from(self, acts: Seq<ActivityId>, id: WorkspaceId) -> LayoutModel
        decreases acts.len(),
    {
        if acts.len() == 0 {
            self
        } else {
            let s = self.unshow_from(acts.drop_last(), id);
            match s.stray(acts.last(), id) {
                Some(w) => s.unshow(w),
                None => s,
            }
        }
    }

    /// Whether that drops the whole view of a connected output.
    pub open spec fn unshow_empties(self, acts: Seq<ActivityId>, id: WorkspaceId) -> bool
        decreases acts.len(),
    {
        if acts.len() == 0 {
            false
        } else {
            let s = self.unshow_from(acts.drop_last(), id);
            self.unshow_empties(acts.drop_last(), id) || match s.stray(acts.last(), id) {
                Some(w) => s.empties(w),
                None => false,
            }
        }
    }

    /// The places from which that takes the workspace while others stay.
    pub open spec fn unshow_thins(self, acts: Seq<ActivityId>, id: WorkspaceId) -> Seq<Stray>
        decreases acts.len(),
    {
        if acts.len() == 0 {
            Seq::empty()
        } else {
            let s = self.unshow_from(acts.drop_last(), id);
            let rest = self.unshow_thins(acts.drop_last(), id);
            match s.stray(acts.last(), id) {
                Some(w) => if s.thins(w) {
                    rest.push(w)
                } else {
                    rest
                },
                None => rest,
            }
        }
    }

    /// Workspace `id` shown on output `out` by the activities in `acts`.
    pub open spec fn enlist_all(self, acts: Seq<ActivityId>, out: OutputId, id: WorkspaceId) -> LayoutModel
        decreases acts.len(),
    {
        if acts.len() == 0 {
            self
        } else {
            self.enlist_all(acts.drop_last(), out, id).enlist(acts.last(), out, id, false)
        }
    }

    /// Whether giving workspace `id` the activities `new` changes whether it belongs to the active
    /// one.
    pub open spec fn reassign_affects(self, id: WorkspaceId, new: Seq<ActivityId>) -> bool {
        self.activities_of(id).contains(self.acts.active) != new.contains(self.acts.active)
    }

    /// Workspace `id` given the activities `new`.
    pub open spec fn reassign(self, id: WorkspaceId, new: Seq<ActivityId>) -> LayoutModel {
        let old = self.activities_of(id);
        let gone = old.filter(absent_from(new));
        let come = new.filter(absent_from(old));
        if gone.len() == 0 && come.len() == 0 {
            self
        } else {
            let s1 = if self.reassign_affects(id, new) {
                self.snap_all()
            } else {
                self
            };
            let s2 = LayoutModel { pool: s1.pool.set_activities(id, new), ..s1 };
            let s3 = s2.unshow_from(gone, id);
            let s4 = match self.holding_output(id) {
                Some(out) => s3.enlist_all(come, out, id),
                None => s3,
            };
            let connected = match self.holding_output(id) {
                Some(out) => self.monitor_pos(out) is Some,
                None => false,
            };
            let s5 = if s4.pool.busy(id) && connected {
                s4.normalize()
            } else {
                s4
            };
            let s6 = if s2.unshow_empties(gone, id) {
                s5.ensure_all()
            } else {
                s5
            };
            let s7 = s6.collapse_all(s2.unshow_thins(gone, id));
            if gone.len() > 0 {
                s7.reclaim(id)
            } else {
                s7
            }
        }
    }

    /// The activities that `refs` name, up to the first one that names none.
    pub open spec fn referred_activities(self, refs: Seq<ActivityReferenceArg>) -> Option<
        Seq<ActivityId>,
    >
        decreases refs.len(),
    {
        if refs.len() == 0 {
            Some(Seq::empty())
        } else {
            match (
                self.referred_activities(refs.drop_last()),
                self.referred_activity(refs.last()),
            ) {
                (Some(s), Some(a)) => Some(s.push(a)),
                _ => None,
            }
        }
    }

    /// Workspace `id` made sticky: it comes to belong to every activity.
    pub open spec fn stick(self, id: WorkspaceId) -> LayoutModel {
        let s = self.reassign(id, distinct(self.acts.ids()));
        LayoutModel { pool: s.pool.set_sticky(id, true), ..s }
    }

    /// Whether workspace `id` is sticky.
    pub open spec fn is_sticky(self, id: WorkspaceId) -> bool {
        match self.pool.get(id) {
            Some(w) => w.sticky,
            None => false,
        }
    }

    /// Whether workspace `id` is sticky and belongs to every activity.
    pub open spec fn is_stuck(self, id: WorkspaceId) -> bool {
        let old = self.activities_of(id);
        let all = distinct(self.acts.ids());
        self.is_sticky(id) && old.filter(absent_from(all)).len() == 0 && all.filter(
            absent_from(old),
        ).len() == 0
    }
}

/// Showing a workspace in one more activity keeps the frame.
pub broadcast proof fn lemma_enlist_leads(
    s: LayoutModel,
    act: ActivityId,
    out: OutputId,
    id: WorkspaceId,
    shift: bool,
)
    ensures
        s.leads_to(#[trigger] s.enlist(act, out, id, shift)),
        s.enlist(act, out, id, shift).pool == s.pool,
{
    broadcast use crate::outputs::lemma_install_into_leads;

    crate::search::lemma_find_from(s.monitors, crate::layout::on_output(out), 0);
}

/// Joining an activity keeps the frame.
pub broadcast proof fn lemma_join_leads(s: LayoutModel, id: WorkspaceId, act: ActivityId)
    ensures
        s.leads_to(#[trigger] s.join(id, act)),
{
    broadcast use {lemma_enlist_leads, crate::bookends::lemma_normalize_leads};

    let s1 = LayoutModel { pool: s.pool.set_activities(id, s.activities_of(id).push(act)), ..s };
    assert(s.leads_to(s1));
}

/// Taking one workspace out of one view keeps the frame.
pub broadcast proof fn lemma_unshow_leads(s: LayoutModel, w: Stray)
    ensures
        s.leads_to(#[trigger] s.unshow(w)),
        s.unshow(w).pool == s.pool,
{
    crate::reconcile::lemma_unshow_all_leads(s, seq![w]);
    assert(seq![w].drop_last() =~= Seq::<Stray>::empty());
    assert(s.unshow_all(seq![w].drop_last()) == s);
}

/// Parting from an activity keeps the frame.
pub broadcast proof fn lemma_part_leads(s: LayoutModel, id: WorkspaceId, act: ActivityId)
    ensures
        s.leads_to(#[trigger] s.part(id, act)),
{
    broadcast use {
        lemma_unshow_leads,
        crate::materialize::lemma_ensure_all_leads,
        crate::reclaim::lemma_collapse_leads,
        crate::reclaim::lemma_reclaim_leads,
    };

    let s1 = if act == s.acts.active {
        s.snap_all()
    } else {
        s
    };
    assert(s.leads_to(s1));
    let s2 = LayoutModel {
        pool: s1.pool.set_activities(id, s.activities_of(id).filter(other_than(act))),
        ..s1
    };
    assert(s1.leads_to(s2));
}

/// Taking a workspace out of several views keeps the frame.
pub proof fn lemma_unshow_from_leads(s: LayoutModel, acts: Seq<ActivityId>, id: WorkspaceId)
    ensures
        s.leads_to(s.unshow_from(acts, id)),
        s.unshow_from(acts, id).pool == s.pool,
    decreases acts.len(),
{
    broadcast use lemma_unshow_leads;

    if acts.len() > 0 {
        lemma_unshow_from_leads(s, acts.drop_last(), id);
    }
}

/// Showing a workspace in several activities keeps the frame.
pub proof fn lemma_enlist_all_leads(
    s: LayoutModel,
    acts: Seq<ActivityId>,
    out: OutputId,
    id: WorkspaceId,
)
    ensures
        s.leads_to(s.enlist_all(acts, out, id)),
        s.enlist_all(acts, out, id).pool == s.pool,
    decreases acts.len(),
{
    broadcast use lemma_enlist_leads;

    if acts.len() > 0 {
        lemma_enlist_all_leads(s, acts.drop_last(), out, id);
    }
}

/// Whether `acts` holds `act`.
pub fn lists(acts: &Vec<ActivityId>, act: ActivityId) -> (b: bool)
    ensures
        b == acts@.contains(act),
{
    let mut i: usize = 0;
    while i < acts.len()
        invariant
            i <= acts@.len(),
            forall|j: int| 0 <= j < i ==> acts@[j] != act,
        decreases acts@.len() - i,
    {
        if acts[i] == act {
            return true;
        }
        i = i + 1;
    }
    false
}

/// What is in `acts` but not in `other`.
fn difference(acts: &Vec<ActivityId>, other: &Vec<ActivityId>) -> (r: Vec<ActivityId>)
    ensures
        r@ == acts@.filter(absent_from(other@)),
{
    let mut r: Vec<ActivityId> = Vec::new();
    let mut i: usize = 0;
    while i < acts.len()
        invariant
            i <= acts@.len(),
            r@ == acts@.take(i as int).filter(absent_from(other@)),
        decreases acts@.len() - i,
    {
        proof {
            assert(acts@.take(i + 1).drop_last() =~= acts@.take(i as int));
            reveal(Seq::filter);
        }
        if !lists(other, acts[i]) {
            r.push(acts[i]);
        }
        i = i + 1;
    }
    assert(acts@.take(i as int) =~= acts@);
    r
}

/// The first occurrence of each element of `s`.
pub fn dedup(s: &Vec<ActivityId>) -> (r: Vec<ActivityId>)
    ensures
        r@ == distinct(s@),
{
    let mut r: Vec<ActivityId> = Vec::new();
    let mut i: usize = 0;
    while i < s.len()
        invariant
            i <= s@.len(),
            r@ == distinct(s@.take(i as int)),
        decreases s@.len() - i,
    {
        assert(s@.take(i + 1).drop_last() =~= s@.take(i as int));
        if !lists(&r, s[i]) {
            r.push(s[i]);
        }
        i = i + 1;
    }
    assert(s@.take(i as int) =~= s@);
    r
}

/// An equal vector.
fn copy(s: &Vec<ActivityId>) -> (r: Vec<ActivityId>)
    ensures
        r@ == s@,
{
    let mut r: Vec<ActivityId> = Vec::new();
    let mut i: usize = 0;
    while i < s.len()
        invariant
            i <= s@.len(),
            r@ == s@.take(i as int),
        decreases s@.len() - i,
    {
        r.push(s[i]);
        i = i + 1;
        assert(r@ =~= s@.take(i as int));
    }
    assert(s@.take(i as int) =~= s@);
    r
}

impl WorkspacePool {
    /// The activities of workspace `id`.
    pub fn activities_of(&self, id: WorkspaceId) -> (r: Vec<ActivityId>)
        ensures
            r@ == match self@.get(id) {
                Some(w) => w.activities,
                None => Seq::empty(),
            },
    {
        match self.get(id) {
            Some(w) => copy(&w.activities),
            None => Vec::new(),
        }
    }

    /// Makes workspace `id` sticky or the opposite.
    pub fn set_sticky(&mut self, id: WorkspaceId, sticky: bool)
        ensures
            final(self)@ == old(self)@.set_sticky(id, sticky),
            final(self).next_id == old(self).next_id,
    {
        if let Some(p) = self.position(id) {
            self.items[p].sticky = sticky;
            assert(self@.items =~= old(self)@.set_sticky(id, sticky).items);
        }
    }
}

impl Layout {
    /// Has activity `act` show workspace `id` on output `out`, unless it shows it somewhere.
    pub(crate) fn enlist(&mut self, act: ActivityId, out: OutputId, id: WorkspaceId, shift: bool)
        ensures
            final(self)@ == old(self)@.enlist(act, out, id, shift),
    {
        let already = match self.activities.get(act) {
            Some(a) => a.output_of(id).is_some(),
            None => {
                return;
            },
        };
        if already {
            return;
        }
        let pos = self.view_insert_above_trailing_bookend(act, out, id);
        if shift && act == self.activities.active {
            if let Some(p) = pos {
                if let Some(m) = self.monitor_idx(out) {
                    self.monitors[m].shift(p);
                }
            }
        }
    }

    /// Adds workspace `id` to activity `act`.
    fn join(&mut self, id: WorkspaceId, act: ActivityId)
        requires
            old(self)@.join(id, act).fits(),
        ensures
            final(self)@ == old(self)@.join(id, act),
    {
        let mut acts = self.workspaces.activities_of(id);
        if lists(&acts, act) {
            return;
        }
        let out = self.workspace_holding_output(id);
        acts.push(act);
        self.workspaces.set_activities(id, acts);
        if let Some(o) = out {
            self.enlist(act, o, id, true);
            if self.workspaces.is_busy(id) && self.monitor_idx(o).is_some() {
                let _minted = self.normalize_view_bookends();
            }
        }
    }

    /// Where activity `act` shows workspace `id`.
    fn stray(&self, act: ActivityId, id: WorkspaceId) -> (w: Option<Stray>)
        ensures
            w == self@.stray(act, id),
    {
        match self.activities.get(act) {
            Some(a) => match a.entry_holding(id) {
                Some(i) => Some(Stray { act, output: a.views[i].output, id }),
                None => None,
            },
            None => None,
        }
    }

    /// Removes workspace `id` from activity `act`.
    fn part(&mut self, id: WorkspaceId, act: ActivityId)
        requires
            old(self)@.part(id, act).fits(),
        ensures
            final(self)@ == old(self)@.part(id, act),
    {
        broadcast use {
            crate::reclaim::lemma_reclaim_leads,
            crate::materialize::lemma_ensure_all_leads,
        };

        let acts = self.workspaces.activities_of(id);
        if act == self.activities.active {
            self.snap_all_workspace_animations();
        }
        self.workspaces.set_activities(id, crate::switching::without(&acts, act));
        if let Some(w) = self.stray(act, id) {
            let connected = self.monitor_idx(w.output).is_some();
            let (was, all) = self.unshow(w);
            if all && connected {
                self.ensure_all_activity_views();
            } else if was && !all {
                self.collapse_empty_exclusive_ewaf_len2_view(act, w.output);
            }
        }
        self.reclaim(id);
    }

    /// Adds a workspace to an activity. Nothing happens if it belongs to it already.
    pub(crate) fn do_add_workspace_to_activity(
        &mut self,
        workspace: Option<WorkspaceReference>,
        activity: &ActivityReferenceArg,
    ) -> (r: Result<(WorkspaceId, ActivityId), AddWorkspaceToActivityError>)
        requires
            match (
                old(self)@.referred_activity(*activity),
                old(self)@.referred_or_active(workspace),
            ) {
                (Some(act), Some(id)) => old(self)@.join(id, act).fits(),
                _ => true,
            },
        ensures
            match (
                old(self)@.referred_activity(*activity),
                old(self)@.referred_or_active(workspace),
            ) {
                (None, _) => r is Err && r->Err_0 is ActivityNotFound && final(self)@ == old(self)@,
                (Some(_), None) => r is Err && r->Err_0 is WorkspaceNotFound && final(self)@ == old(self)@,
                (Some(act), Some(id)) => r is Ok && r->Ok_0 == (id, act) && final(self)@ == old(self)@.join(id, act),
            },
    {
        let act = match self.resolve_activity_ref(activity) {
            Some(a) => a,
            None => {
                return Err(AddWorkspaceToActivityError::ActivityNotFound);
            },
        };
        let id = match self.resolve_workspace_ref_or_active(&workspace) {
            Some(i) => i,
            None => {
                return Err(AddWorkspaceToActivityError::WorkspaceNotFound);
            },
        };
        self.join(id, act);
        Ok((id, act))
    }

    /// Removes a workspace from an activity. Nothing happens if it does not belong to it; it is an
    /// error if it belongs to no other.
    pub(crate) fn do_remove_workspace_from_activity(
        &mut self,
        workspace: Option<WorkspaceReference>,
        activity: &ActivityReferenceArg,
    ) -> (r: Result<(WorkspaceId, ActivityId), RemoveWorkspaceFromActivityError>)
        requires
            match (
                old(self)@.referred_activity(*activity),
                old(self)@.referred_or_active(workspace),
            ) {
                (Some(act), Some(id)) => old(self)@.activities_of(id).contains(act) && old(self)@.activities_of(id).len() != 1 ==> old(self)@.part(id, act).fits(),
                _ => true,
            },
        ensures
            match (
                old(self)@.referred_activity(*activity),
                old(self)@.referred_or_active(workspace),
            ) {
                (None, _) => r is Err && r->Err_0 is ActivityNotFound && final(self)@ == old(self)@,
                (Some(_), None) => r is Err && r->Err_0 is WorkspaceNotFound && final(self)@ == old(self)@,
                (Some(act), Some(id)) => if !old(self)@.activities_of(id).contains(act) {
                    r is Ok && r->Ok_0 == (id, act) && final(self)@ == old(self)@
                } else if old(self)@.activities_of(id).len() == 1 {
                    r is Err && r->Err_0 is LastActivity && final(self)@ == old(self)@
                } else {
                    r is Ok && r->Ok_0 == (id, act) && final(self)@ == old(self)@.part(id, act)
                },
            },
    {
        let act = match self.resolve_activity_ref(activity) {
            Some(a) => a,
            None => {
                return Err(RemoveWorkspaceFromActivityError::ActivityNotFound);
            },
        };
        let id = match self.resolve_workspace_ref_or_active(&workspace) {
            Some(i) => i,
            None => {
                return Err(RemoveWorkspaceFromActivityError::WorkspaceNotFound);
            },
        };
        let acts = self.workspaces.activities_of(id);
        if !lists(&acts, act) {
            return Ok((id, act));
        }
        if acts.len() == 1 {
            return Err(RemoveWorkspaceFromActivityError::LastActivity);
        }
        self.part(id, act);
        Ok((id, act))
    }

    /// Gives workspace `id` the activities `new`. Says whether that changes whether it belongs to
    /// the active one.
    fn reassign(&mut self, id: WorkspaceId, new: &Vec<ActivityId>) -> (affected: bool)
        requires
            old(self)@.reassign(id, new@).fits(),
        ensures
            final(self)@ == old(self)@.reassign(id, new@),
            affected == old(self)@.reassign_affects(id, new@),
    {
        let ghost start = self@;
        let previous = self.workspaces.activities_of(id);
        let active = self.activities.active;
        let affected = lists(&previous, active) != lists(new, active);
        let gone = difference(&previous, new);
        let come = difference(new, &previous);
        if gone.len() == 0 && come.len() == 0 {
            return affected;
        }
        let out = self.workspace_holding_output(id);
        let connected = match out {
            Some(o) => self.monitor_idx(o).is_some(),
            None => false,
        };
        if affected {
            self.snap_all_workspace_animations();
        }
        self.workspaces.set_activities(id, copy(new));
        let ghost s2 = self@;
        let mut emptied = false;
        let mut thinned: Vec<Stray> = Vec::new();
        let mut i: usize = 0;
        while i < gone.len()
            invariant
                i <= gone@.len(),
                self@ == s2.unshow_from(gone@.take(i as int), id),
                emptied == s2.unshow_empties(gone@.take(i as int), id),
                thinned@ == s2.unshow_thins(gone@.take(i as int), id),
            decreases gone@.len() - i,
        {
            assert(gone@.take(i + 1).drop_last() =~= gone@.take(i as int));
            if let Some(w) = self.stray(gone[i], id) {
                let there = self.monitor_idx(w.output).is_some();
                let (was, all) = self.unshow(w);
                if all && there {
                    emptied = true;
                }
                if was && !all {
                    thinned.push(w);
                }
            }
            i = i + 1;
        }
        assert(gone@.take(i as int) =~= gone@);
        let ghost s3 = self@;
        if let Some(o) = out {
            let mut k: usize = 0;
            while k < come.len()
                invariant
                    k <= come@.len(),
                    self@ == s3.enlist_all(come@.take(k as int), o, id),
                decreases come@.len() - k,
            {
                assert(come@.take(k + 1).drop_last() =~= come@.take(k as int));
                self.enlist(come[k], o, id, false);
                k = k + 1;
            }
            assert(come@.take(k as int) =~= come@);
        }
        let ghost s4 = self@;
        let ghost s5 = if s4.pool.busy(id) && connected {
            s4.normalize()
        } else {
            s4
        };
        let ghost s6 = if emptied {
            s5.ensure_all()
        } else {
            s5
        };
        proof {
            crate::materialize::lemma_ensure_all_leads(s5);
            crate::reconcile::lemma_collapse_all_leads(s6, thinned@);
            crate::reclaim::lemma_reclaim_leads(s6.collapse_all(thinned@), id);
        }
        if self.workspaces.is_busy(id) && connected {
            let _minted = self.normalize_view_bookends();
        }
        if emptied {
            self.ensure_all_activity_views();
        }
        let mut c: usize = 0;
        while c < thinned.len()
            invariant
                c <= thinned@.len(),
                self@ == s6.collapse_all(thinned@.take(c as int)),
            decreases thinned@.len() - c,
        {
            assert(thinned@.take(c + 1).drop_last() =~= thinned@.take(c as int));
            self.collapse_empty_exclusive_ewaf_len2_view(thinned[c].act, thinned[c].output);
            c = c + 1;
        }
        assert(thinned@.take(c as int) =~= thinned@);
        if gone.len() > 0 {
            self.reclaim(id);
        }
        affected
    }

    /// The activities that `refs` name; none if one of them names none.
    fn resolve_activities(&self, refs: &Vec<ActivityReferenceArg>) -> (r: Option<Vec<ActivityId>>)
        ensures
            match r {
                Some(v) => self@.referred_activities(refs@) == Some(v@),
                None => self@.referred_activities(refs@) is None,
            },
    {
        let mut v: Vec<ActivityId> = Vec::new();
        let mut failed = false;
        let mut i: usize = 0;
        while i < refs.len()
            invariant
                i <= refs@.len(),
                match self@.referred_activities(refs@.take(i as int)) {
                    Some(s) => !failed && v@ == s,
                    None => failed,
                },
            decreases refs@.len() - i,
        {
            assert(refs@.take(i + 1).drop_last() =~= refs@.take(i as int));
            match self.resolve_activity_ref(&refs[i]) {
                Some(a) => {
                    v.push(a);
                },
                None => {
                    failed = true;
                },
            }
            i = i + 1;
        }
        assert(refs@.take(i as int) =~= refs@);
        if failed {
            None
        } else {
            Some(v)
        }
    }

    /// Gives a workspace other activities. Returns the workspace, its activities, and whether that
    /// changed whether it belongs to the active one.
    pub(crate) fn do_set_workspace_activities(
        &mut self,
        workspace: Option<WorkspaceReference>,
        activity_refs: &Vec<ActivityReferenceArg>,
    ) -> (r: Result<(WorkspaceId, Vec<ActivityId>, bool), SetWorkspaceActivitiesError>)
        requires
            match (
                old(self)@.referred_activities(activity_refs@),
                old(self)@.referred_or_active(workspace),
            ) {
                (Some(acts), Some(id)) => acts.len() > 0 ==> old(self)@.reassign(
                    id,
                    distinct(acts),
                ).fits(),
                _ => true,
            },
        ensures
            match (
                old(self)@.referred_activities(activity_refs@),
                old(self)@.referred_or_active(workspace),
            ) {
                (None, _) => r is Err && r->Err_0 is ActivityNotFound && final(self)@ == old(self)@,
                (Some(acts), w) => if acts.len() == 0 {
                    r is Err && r->Err_0 is EmptyActivityList && final(self)@ == old(self)@
                } else {
                    match w {
                        None => r is Err && r->Err_0 is WorkspaceNotFound && final(self)@ == old(self)@,
                        Some(id) => r is Ok && r->Ok_0.0 == id && r->Ok_0.1@ == distinct(acts)
                            && r->Ok_0.2 == old(self)@.reassign_affects(id, distinct(acts))
                            && final(self)@ == old(self)@.reassign(id, distinct(acts)),
                    }
                },
            },
    {
        let acts = match self.resolve_activities(activity_refs) {
            Some(v) => v,
            None => {
                return Err(SetWorkspaceActivitiesError::ActivityNotFound);
            },
        };
        if acts.len() == 0 {
            return Err(SetWorkspaceActivitiesError::EmptyActivityList);
        }
        let id = match self.resolve_workspace_ref_or_active(&workspace) {
            Some(i) => i,
            None => {
                return Err(SetWorkspaceActivitiesError::WorkspaceNotFound);
            },
        };
        let new = dedup(&acts);
        let affected = self.reassign(id, &new);
        Ok((id, new, affected))
    }

    /// Moves a workspace from the active activity to another: it is added there, then removed
    /// here. Returns the workspace, where it went and where it came from.
    pub(crate) fn do_move_workspace_to_activity(
        &mut self,
        workspace: Option<WorkspaceReference>,
        activity: &ActivityReferenceArg,
    ) -> (r: Result<(WorkspaceId, ActivityId, ActivityId), MoveWorkspaceToActivityError>)
        requires
            match (
                old(self)@.referred_activity(*activity),
                old(self)@.referred_or_active(workspace),
            ) {
                (Some(act), Some(id)) => act != old(self)@.acts.active && old(self)@.activities_of(
                    id,
                ).contains(old(self)@.acts.active) ==> old(self)@.join(id, act).part(
                    id,
                    old(self)@.acts.active,
                ).fits(),
                _ => true,
            },
        ensures
            match (
                old(self)@.referred_activity(*activity),
                old(self)@.referred_or_active(workspace),
            ) {
                (None, _) => r is Err && r->Err_0 is ActivityNotFound && final(self)@ == old(self)@,
                (Some(_), None) => r is Err && r->Err_0 is WorkspaceNotFound && final(self)@ == old(self)@,
                (Some(act), Some(id)) => {
                    let source = old(self)@.acts.active;
                    if !old(self)@.activities_of(id).contains(source) {
                        r is Err && r->Err_0 is WorkspaceNotInActiveActivity && final(self)@ == old(self)@
                    } else {
                        r is Ok && r->Ok_0 == (id, act, source) && final(self)@ == if act
                            == source {
                            old(self)@
                        } else {
                            old(self)@.join(id, act).part(id, source)
                        }
                    }
                },
            },
    {
        let act = match self.resolve_activity_ref(activity) {
            Some(a) => a,
            None => {
                return Err(MoveWorkspaceToActivityError::ActivityNotFound);
            },
        };
        let id = match self.resolve_workspace_ref_or_active(&workspace) {
            Some(i) => i,
            None => {
                return Err(MoveWorkspaceToActivityError::WorkspaceNotFound);
            },
        };
        let source = self.activities.active;
        let acts = self.workspaces.activities_of(id);
        if !lists(&acts, source) {
            return Err(MoveWorkspaceToActivityError::WorkspaceNotInActiveActivity);
        }
        if act == source {
            return Ok((id, act, source));
        }
        proof {
            lemma_part_leads(self@.join(id, act), id, source);
        }
        self.join(id, act);
        self.part(id, source);
        Ok((id, act, source))
    }

    /// Makes workspace `id` sticky. Says whether it came to belong to the active activity by that.
    fn stick(&mut self, id: WorkspaceId) -> (affected: bool)
        requires
            !old(self)@.is_stuck(id) ==> old(self)@.stick(id).fits(),
        ensures
            final(self)@ == if old(self)@.is_stuck(id) {
                old(self)@
            } else {
                old(self)@.stick(id)
            },
            affected == (!old(self)@.is_stuck(id) && old(self)@.reassign_affects(
                id,
                distinct(old(self)@.acts.ids()),
            )),
    {
        let all = dedup(&self.activities.ids());
        let previous = self.workspaces.activities_of(id);
        let sticky = match self.workspaces.get(id) {
            Some(w) => w.sticky,
            None => false,
        };
        if sticky && difference(&previous, &all).len() == 0 && difference(&all, &previous).len()
            == 0 {
            return false;
        }
        let affected = self.reassign(id, &all);
        self.workspaces.set_sticky(id, true);
        affected
    }

    /// Makes a workspace sticky: it comes to belong to every activity, present and future.
    pub(crate) fn do_set_workspace_sticky(&mut self, workspace: Option<WorkspaceReference>) -> (r: Result<
        (WorkspaceId, bool),
        WorkspaceStickyError,
    >)
        requires
            match old(self)@.referred_or_active(workspace) {
                Some(id) => !old(self)@.is_stuck(id) ==> old(self)@.stick(id).fits(),
                None => true,
            },
        ensures
            match old(self)@.referred_or_active(workspace) {
                None => r is Err && final(self)@ == old(self)@,
                Some(id) => r is Ok && r->Ok_0.0 == id && r->Ok_0.1 == (!old(self)@.is_stuck(id)
                    && old(self)@.reassign_affects(id, distinct(old(self)@.acts.ids()))) && final(self)@ == if old(self)@.is_stuck(id) {
                    old(self)@
                } else {
                    old(self)@.stick(id)
                },
            },
    {
        match self.resolve_workspace_ref_or_active(&workspace) {
            Some(id) => {
                let affected = self.stick(id);
                Ok((id, affected))
            },
            None => Err(WorkspaceStickyError::WorkspaceNotFound),
        }
    }

    /// Makes a workspace not sticky. It goes on belonging to the activities it belongs to.
    pub(crate) fn do_unset_workspace_sticky(&mut self, workspace: Option<WorkspaceReference>) -> (r: Result<
        WorkspaceId,
        WorkspaceStickyError,
    >)
        ensures
            match old(self)@.referred_or_active(workspace) {
                None => r is Err && final(self)@ == old(self)@,
                Some(id) => r is Ok && r->Ok_0 == id && final(self)@ == (LayoutModel {
                    pool: old(self)@.pool.set_sticky(id, false),
                    ..old(self)@
                }),
            },
    {
        match self.resolve_workspace_ref_or_active(&workspace) {
            Some(id) => {
                self.workspaces.set_sticky(id, false);
                Ok(id)
            },
            None => Err(WorkspaceStickyError::WorkspaceNotFound),
        }
    }

    /// Makes a workspace sticky if it is not, and the opposite if it is.
    pub(crate) fn do_toggle_workspace_sticky(&mut self, workspace: Option<WorkspaceReference>) -> (r: Result<
        ToggleWorkspaceStickyOutcome,
        WorkspaceStickyError,
    >)
        requires
            match old(self)@.referred_or_active(workspace) {
                Some(id) => !old(self)@.is_sticky(id) ==> old(self)@.stick(id).fits(),
                None => true,
            },
        ensures
            match old(self)@.referred_or_active(workspace) {
                None => r is Err && final(self)@ == old(self)@,
                Some(id) => if old(self)@.is_sticky(id) {
                    r is Ok && r->Ok_0 == (ToggleWorkspaceStickyOutcome::StickyOff { ws_id: id })
                        && final(self)@ == (LayoutModel {
                        pool: old(self)@.pool.set_sticky(id, false),
                        ..old(self)@
                    })
                } else {
                    r is Ok && r->Ok_0 == (ToggleWorkspaceStickyOutcome::StickyOn {
                        ws_id: id,
                        active_affected: old(self)@.reassign_affects(
                            id,
                            distinct(old(self)@.acts.ids()),
                        ),
                    }) && final(self)@ == old(self)@.stick(id)
                },
            },
    {
        let id = match self.resolve_workspace_ref_or_active(&workspace) {
            Some(i) => i,
            None => {
                return Err(WorkspaceStickyError::WorkspaceNotFound);
            },
        };
        let sticky = match self.workspaces.get(id) {
            Some(w) => w.sticky,
            None => false,
        };
        if sticky {
            self.workspaces.set_sticky(id, false);
            Ok(ToggleWorkspaceStickyOutcome::StickyOff { ws_id: id })
        } else {
            let active_affected = self.stick(id);
            Ok(ToggleWorkspaceStickyOutcome::StickyOn { ws_id: id, active_affected })
        }
    }
}

} // verus!
