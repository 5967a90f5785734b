//! Bringing views back into agreement with membership.

use vstd::prelude::*;

use crate::activity::{ActivityModel, EntryModel};
use crate::ids::{ActivityId, OutputId, WorkspaceId};
use crate::layout::{Layout, LayoutModel};
use crate::pool::PoolModel;
use crate::workspace::WorkspaceModel;

verus! {

/// A workspace that an activity has to show.
#[derive(Clone, Copy, Debug, PartialEq, Eq, Structural)]
pub struct Missing {
    /// The workspace.
    pub id: WorkspaceId,
    /// The activity.
    pub act: ActivityId,
}

/// A workspace that an activity has to stop showing.
#[derive(Clone, Copy, Debug, PartialEq, Eq, Structural)]
pub struct Stray {
    /// The activity.
    pub act: ActivityId,
    /// The output on which it shows the workspace.
    pub output: OutputId,
    /// The workspace.
    pub id: WorkspaceId,
}

/// The predicate that picks the workspaces that activity `a` has but does not show. Parked ones
/// are shown nowhere.
pub open spec fn unseen(a: ActivityModel, parked: Seq<WorkspaceId>) -> spec_fn(
    WorkspaceModel,
) -> bool {
    |w: WorkspaceModel|
        w.activities.contains(a.id) && !parked.contains(w.id) && a.output_of(w.id) is None
}

/// What activity `a` has to show.
pub open spec fn missing_in(pool: PoolModel, a: ActivityModel, parked: Seq<WorkspaceId>) -> Seq<Missing> {
    let ids = crate::materialize::ids_of(pool.items.filter(unseen(a, parked)));
    Seq::new(ids.len(), |i: int| Missing { id: ids[i], act: a.id })
}

/// What the activities in `list` have to show.
pub open spec fn all_missing(
    pool: PoolModel,
    list: Seq<ActivityModel>,
    parked: Seq<WorkspaceId>,
) -> Seq<Missing>
    decreases list.len(),
{
    if list.len() == 0 {
        Seq::empty()
    } else {
        all_missing(pool, list.drop_last(), parked) + missing_in(pool, list.last(), parked)
    }
}

/// The workspaces of `ids` that are in the pool but not of activity `act`, as strays on `out`.
pub open spec fn strays_among(
    pool: PoolModel,
    act: ActivityId,
    out: OutputId,
    ids: Seq<WorkspaceId>,
) -> Seq<Stray>
    decreases ids.len(),
{
    if ids.len() == 0 {
        Seq::empty()
    } else {
        let rest = strays_among(pool, act, out, ids.drop_last());
        let id = ids.last();
        if pool.has(id) && !pool.member(id, act) {
            rest.push(Stray { act, output: out, id })
        } else {
            rest
        }
    }
}

/// What activity `act` has to stop showing in `entries`.
pub open spec fn strays_in(pool: PoolModel, act: ActivityId, entries: Seq<EntryModel>) -> Seq<Stray>
    decreases entries.len(),
{
    if entries.len() == 0 {
        Seq::empty()
    } else {
        strays_in(pool, act, entries.drop_last()) + strays_among(
            pool,
            act,
            entries.last().output,
            entries.last().view.ids,
        )
    }
}

/// What the activities in `list` have to stop showing.
pub open spec fn all_strays(pool: PoolModel, list: Seq<ActivityModel>) -> Seq<Stray>
    decreases list.len(),
{
    if list.len() == 0 {
        Seq::empty()
    } else {
        all_strays(pool, list.drop_last()) + strays_in(pool, list.last().id, list.last().views)
    }
}

/// The predicate that picks the workspaces that `work` takes out of views.
pub open spec fn strayed(work: Seq<Stray>) -> spec_fn(WorkspaceModel) -> bool {
    |w: WorkspaceModel| exists|i: int| 0 <= i < work.len() && (#[trigger] work[i]).id == w.id
}

impl LayoutModel {
    /// The workspace animations of every monitor ended.
    pub open spec fn snap_all(self) -> LayoutModel {
        LayoutModel {
            monitors: Seq::new(self.monitors.len(), |i: int| self.monitors[i].snapped()),
            ..self
        }
    }

    /// Workspace `w.id` put into activity `w.act`'s view of the output that shows it elsewhere.
    pub open spec fn show(self, w: Missing) -> LayoutModel {
        match self.holding_output(w.id) {
            Some(out) => self.install_into(w.act, out, w.id),
            None => self,
        }
    }

    /// Whether showing `w` puts a workspace with windows or a name into a view.
    pub open spec fn shows_busy(self, w: Missing) -> bool {
        match self.holding_output(w.id) {
            Some(out) => match self.view_of(w.act, out) {
                Some(v) => v.position_of(w.id) is None && self.pool.busy(w.id),
                None => false,
            },
            None => false,
        }
    }

    /// All of `work` shown.
    pub open spec fn show_all(self, work: Seq<Missing>) -> LayoutModel
        decreases work.len(),
    {
        if work.len() == 0 {
            self
        } else {
            self.show_all(work.drop_last()).show(work.last())
        }
    }

    /// Whether showing all of `work` puts a workspace with windows or a name into a view.
    pub open spec fn shows_any_busy(self, work: Seq<Missing>) -> bool
        decreases work.len(),
    {
        if work.len() == 0 {
            false
        } else {
            self.shows_any_busy(work.drop_last()) || self.show_all(work.drop_last()).shows_busy(
                work.last(),
            )
        }
    }

    /// Whether `s` is still where it strayed to.
    pub open spec fn astray(self, s: Stray) -> bool {
        match self.view_of(s.act, s.output) {
            Some(v) => v.position_of(s.id) is Some,
            None => false,
        }
    }

    /// Workspace `s.id` taken out of the view it strayed into; a view that held nothing else goes
    /// with it.
    pub open spec fn unshow(self, s: Stray) -> LayoutModel {
        match self.view_of(s.act, s.output) {
            Some(v) => match v.position_of(s.id) {
                Some(p) => if v.ids.len() == 1 {
                    LayoutModel { acts: self.acts.drop_view(s.act, s.output), ..self }
                } else {
                    self.with_view(s.act, s.output, v.remove_at(p))
                },
                None => self,
            },
            None => self,
        }
    }

    /// All of `work` taken out.
    pub open spec fn unshow_all(self, work: Seq<Stray>) -> LayoutModel
        decreases work.len(),
    {
        if work.len() == 0 {
            self
        } else {
            self.unshow_all(work.drop_last()).unshow(work.last())
        }
    }

    /// Whether taking `work` out drops a view of a connected output.
    pub open spec fn drops_view(self, work: Seq<Stray>) -> bool
        decreases work.len(),
    {
        if work.len() == 0 {
            false
        } else {
            let s = self.unshow_all(work.drop_last());
            let w = work.last();
            ||| self.drops_view(work.drop_last())
            ||| self.monitor_pos(w.output) is Some && s.astray(w) && s.view_of(
                w.act,
                w.output,
            ).unwrap().ids.len() == 1
        }
    }

    /// Those of `work` that are where they strayed to when their turn comes.
    pub open spec fn taken(self, work: Seq<Stray>) -> Seq<Stray>
        decreases work.len(),
    {
        if work.len() == 0 {
            Seq::empty()
        } else {
            let rest = self.taken(work.drop_last());
            if self.unshow_all(work.drop_last()).astray(work.last()) {
                rest.push(work.last())
            } else {
                rest
            }
        }
    }

    /// The views that `work` was taken out of, brought down from two empty workspaces to one.
    pub open spec fn collapse_all(self, work: Seq<Stray>) -> LayoutModel
        decreases work.len(),
    {
        if work.len() == 0 {
            self
        } else {
            self.collapse_all(work.drop_last()).collapse(work.last().act, work.last().output)
        }
    }

    /// Views in agreement with membership: every activity shows what it has and nothing else.
    pub open spec fn reconcile(self) -> LayoutModel {
        if self.monitors.len() == 0 {
            self
        } else {
            let wanted = all_missing(self.pool, self.acts.list, self.parked);
            let unwanted = all_strays(self.pool, self.acts.list);
            let active = self.acts.active;
            let touched = (exists|i: int|
                0 <= i < wanted.len() && (#[trigger] wanted[i]).act == active) || (exists|i: int|
                0 <= i < unwanted.len() && (#[trigger] unwanted[i]).act == active);
            let s1 = if touched {
                self.snap_all()
            } else {
                self
            };
            let s2 = s1.show_all(wanted);
            let done = s2.taken(unwanted);
            let s3 = s2.unshow_all(unwanted).collapse_all(done);
            let s4 = if s2.drops_view(unwanted) {
                s3.ensure_all()
            } else {
                s3
            };
            let s5 = if s1.shows_any_busy(wanted) {
                s4.normalize()
            } else {
                s4
            };
            s5.reclaim_all(crate::materialize::ids_of(s5.pool.items.filter(strayed(done))))
        }
    }
}

/// Showing a workspace keeps the frame.
pub proof fn lemma_show_all_leads(s: LayoutModel, work: Seq<Missing>)
    ensures
        s.leads_to(s.show_all(work)),
        s.show_all(work).pool == s.pool,
    decreases work.len(),
{
    broadcast use crate::outputs::lemma_install_into_leads;

    if work.len() > 0 {
        lemma_show_all_leads(s, work.drop_last());
    }
}

/// Dropping a view changes neither which activities there are nor their order.
pub proof fn lemma_drop_view_ids(s: crate::activity::ActivitiesModel, act: ActivityId, out: OutputId)
    ensures
        s.drop_view(act, out).ids() == s.ids(),
{
    crate::search::lemma_find_from(s.list, crate::activity::named(act), 0);
    assert(s.drop_view(act, out).ids() =~= s.ids());
}

/// Taking a workspace out of a view keeps the frame.
pub proof fn lemma_unshow_all_leads(s: LayoutModel, work: Seq<Stray>)
    ensures
        s.leads_to(s.unshow_all(work)),
        s.unshow_all(work).pool == s.pool,
    decreases work.len(),
{
    broadcast use crate::reclaim::lemma_with_view_leads;

    if work.len() > 0 {
        lemma_unshow_all_leads(s, work.drop_last());
        lemma_drop_view_ids(
            s.unshow_all(work.drop_last()).acts,
            work.last().act,
            work.last().output,
        );
    }
}

/// Bringing views down keeps the frame.
pub proof fn lemma_collapse_all_leads(s: LayoutModel, work: Seq<Stray>)
    ensures
        s.leads_to(s.collapse_all(work)),
    decreases work.len(),
{
    broadcast use crate::reclaim::lemma_collapse_leads;

    if work.len() > 0 {
        lemma_collapse_all_leads(s, work.drop_last());
    }
}

/// Reconciling keeps the frame.
pub broadcast proof fn lemma_reconcile_leads(s: LayoutModel)
    ensures
        s.leads_to(#[trigger] s.reconcile()),
{
    if s.monitors.len() > 0 {
        let wanted = all_missing(s.pool, s.acts.list, s.parked);
        let unwanted = all_strays(s.pool, s.acts.list);
        let active = s.acts.active;
        let touched = (exists|i: int|
            0 <= i < wanted.len() && (#[trigger] wanted[i]).act == active) || (exists|i: int|
            0 <= i < unwanted.len() && (#[trigger] unwanted[i]).act == active);
        let s1 = if touched {
            s.snap_all()
        } else {
            s
        };
        assert(s.leads_to(s1));
        lemma_show_all_leads(s1, wanted);
        let s2 = s1.show_all(wanted);
        let done = s2.taken(unwanted);
        lemma_unshow_all_leads(s2, unwanted);
        let s2b = s2.unshow_all(unwanted);
        lemma_collapse_all_leads(s2b, done);
        let s3 = s2b.collapse_all(done);
        crate::materialize::lemma_ensure_all_leads(s3);
        let s4 = if s2.drops_view(unwanted) {
            s3.ensure_all()
        } else {
            s3
        };
        crate::bookends::lemma_normalize_leads(s4);
        let s5 = if s1.shows_any_busy(wanted) {
            s4.normalize()
        } else {
            s4
        };
        crate::reclaim::lemma_reclaim_all_leads(
            s5,
            crate::materialize::ids_of(s5.pool.items.filter(strayed(done))),
        );
    }
}

impl Layout {
    /// Whether workspace `id` is parked.
    pub fn is_parked(&self, id: WorkspaceId) -> (b: bool)
        ensures
            b == self@.parked.contains(id),
    {
        let mut i: usize = 0;
        while i < self.disconnected_workspace_ids.len()
            invariant
                i <= self.disconnected_workspace_ids@.len(),
                forall|j: int| 0 <= j < i ==> self.disconnected_workspace_ids@[j] != id,
            decreases self.disconnected_workspace_ids@.len() - i,
        {
            if self.disconnected_workspace_ids[i] == id {
                return true;
            }
            i = i + 1;
        }
        false
    }

    /// Adds to `work` what activity number `a` has to show.
    fn collect_missing(&self, a: usize, work: &mut Vec<Missing>)
        requires
            a < self.activities.list@.len(),
        ensures
            final(work)@ == old(work)@ + missing_in(
                self@.pool,
                self@.acts.list[a as int],
                self@.parked,
            ),
    {
        let ghost am = self@.acts.list[a as int];
        let ghost start = work@;
        let ghost p = unseen(am, self@.parked);
        let ghost items = self@.pool.items;
        assert(am == self.activities.list@[a as int]@);
        let act = self.activities.list[a].id;
        let mut i: usize = 0;
        while i < self.workspaces.items.len()
            invariant
                i <= self.workspaces.items@.len(),
                a < self.activities.list@.len(),
                am == self.activities.list@[a as int]@,
                act == am.id,
                items == self@.pool.items,
                p == unseen(am, self@.parked),
                work@ == start + Seq::new(
                    items.take(i as int).filter(p).len(),
                    |k: int| Missing { id: items.take(i as int).filter(p)[k].id, act: am.id },
                ),
            decreases self.workspaces.items@.len() - i,
        {
            let w = &self.workspaces.items[i];
            let ghost prev = items.take(i as int).filter(p);
            let ghost next = items.take(i + 1).filter(p);
            proof {
                assert(items.take(i + 1).drop_last() =~= items.take(i as int));
                assert(items.take(i + 1).last() == w@);
                reveal(Seq::filter);
            }
            if w.belongs_to(act) && !self.is_parked(w.id) && self.activities.list[a].output_of(
                w.id,
            ).is_none() {
                work.push(Missing { id: w.id, act });
                assert(next == prev.push(w@));
                assert(work@ =~= start + Seq::new(
                    next.len(),
                    |k: int| Missing { id: next[k].id, act: am.id },
                ));
            } else {
                assert(next == prev);
            }
            i = i + 1;
        }
        proof {
            assert(items.take(i as int) =~= items);
            assert(work@ =~= start + missing_in(self@.pool, am, self@.parked));
        }
    }

    /// What the activities have to show.
    fn all_missing(&self) -> (work: Vec<Missing>)
        ensures
            work@ == all_missing(self@.pool, self@.acts.list, self@.parked),
    {
        let mut work: Vec<Missing> = Vec::new();
        let mut i: usize = 0;
        while i < self.activities.list.len()
            invariant
                i <= self.activities.list@.len(),
                work@ == all_missing(self@.pool, self@.acts.list.take(i as int), self@.parked),
            decreases self.activities.list@.len() - i,
        {
            assert(self@.acts.list.take(i + 1).drop_last() =~= self@.acts.list.take(i as int));
            self.collect_missing(i, &mut work);
            i = i + 1;
        }
        assert(self@.acts.list.take(i as int) =~= self@.acts.list);
        work
    }

    /// Adds to `work` what activity number `a` has to stop showing.
    fn collect_strays(&self, a: usize, work: &mut Vec<Stray>)
        requires
            a < self.activities.list@.len(),
        ensures
            final(work)@ == old(work)@ + strays_in(
                self@.pool,
                self@.acts.list[a as int].id,
                self@.acts.list[a as int].views,
            ),
    {
        let ghost am = self@.acts.list[a as int];
        let ghost start = work@;
        assert(am == self.activities.list@[a as int]@);
        let act = self.activities.list[a].id;
        let n: usize = self.activities.list[a].views.len();
        let mut e: usize = 0;
        assert(start + Seq::<Stray>::empty() =~= start);
        while e < n
            invariant
                e <= n,
                n == am.views.len(),
                a < self.activities.list@.len(),
                am == self.activities.list@[a as int]@,
                act == am.id,
                work@ == start + strays_in(self@.pool, act, am.views.take(e as int)),
            decreases n - e,
        {
            let entry = &self.activities.list[a].views[e];
            let ghost em = am.views[e as int];
            let ghost here = work@;
            proof {
                assert(am.views.take(e + 1).drop_last() =~= am.views.take(e as int));
                assert(am.views.take(e + 1).last() == entry@);
            }
            let out = entry.output;
            let len: usize = entry.view.len();
            let mut i: usize = 0;
            assert(here + Seq::<Stray>::empty() =~= here);
            while i < len
                invariant
                    i <= len,
                    len == entry@.view.ids.len(),
                    out == entry@.output,
                    work@ == here + strays_among(
                        self@.pool,
                        act,
                        out,
                        entry@.view.ids.take(i as int),
                    ),
                decreases len - i,
            {
                let id = entry.view.id_at(i);
                proof {
                    assert(entry@.view.ids.take(i + 1).drop_last() =~= entry@.view.ids.take(
                        i as int,
                    ));
                }
                if self.workspaces.contains(id) && !self.workspaces.is_member(id, act) {
                    let ghost rest = strays_among(
                        self@.pool,
                        act,
                        out,
                        entry@.view.ids.take(i as int),
                    );
                    work.push(Stray { act, output: out, id });
                    assert(work@ =~= here + rest.push(Stray { act, output: out, id }));
                }
                i = i + 1;
            }
            proof {
                assert(entry@.view.ids.take(i as int) =~= entry@.view.ids);
                assert(work@ =~= start + strays_in(self@.pool, act, am.views.take(e + 1)));
            }
            e = e + 1;
        }
        assert(am.views.take(e as int) =~= am.views);
    }

    /// What the activities have to stop showing.
    fn all_strays(&self) -> (work: Vec<Stray>)
        ensures
            work@ == all_strays(self@.pool, self@.acts.list),
    {
        let mut work: Vec<Stray> = Vec::new();
        let mut i: usize = 0;
        while i < self.activities.list.len()
            invariant
                i <= self.activities.list@.len(),
                work@ == all_strays(self@.pool, self@.acts.list.take(i as int)),
            decreases self.activities.list@.len() - i,
        {
            assert(self@.acts.list.take(i + 1).drop_last() =~= self@.acts.list.take(i as int));
            self.collect_strays(i, &mut work);
            i = i + 1;
        }
        assert(self@.acts.list.take(i as int) =~= self@.acts.list);
        work
    }

    /// Ends the workspace animations of every monitor.
    pub fn snap_all_workspace_animations(&mut self)
        ensures
            final(self)@ == old(self)@.snap_all(),
            old(self)@.whole() ==> final(self)@.whole(),
            old(self)@.whole() && old(self)@.orderly() ==> final(self)@.orderly(),
    {
        proof {
            if self@.whole() {
                crate::resting::law_ending_animations_keeps_whole(self@);
            }
        }
        let ghost start = self@;
        let mut i: usize = 0;
        while i < self.monitors.len()
            invariant
                i <= self.monitors@.len(),
                self.monitors@.len() == start.monitors.len(),
                forall|j: int|
                    0 <= j < i ==> #[trigger] self.monitors@[j] == start.monitors[j].snapped(),
                forall|j: int|
                    i <= j < self.monitors@.len() ==> #[trigger] self.monitors@[j]
                        == start.monitors[j],
                self@ == (LayoutModel { monitors: self.monitors@, ..start }),
            decreases self.monitors@.len() - i,
        {
            if self.monitors[i].is_animating() {
                self.monitors[i].workspace_switch = None;
            }
            i = i + 1;
        }
        assert(self.monitors@ =~= start.snap_all().monitors);
    }

    /// Takes workspace `s.id` out of the view it strayed into. Says whether it was there and
    /// whether the whole view went.
    pub(crate) fn unshow(&mut self, s: Stray) -> (r: (bool, bool))
        ensures
            final(self)@ == old(self)@.unshow(s),
            r.0 == old(self)@.astray(s),
            r.1 == (old(self)@.astray(s) && old(self)@.view_of(s.act, s.output).unwrap().ids.len()
                == 1),
    {
        match self.copy_view(s.act, s.output) {
            Some(mut v) => match v.position_of(s.id) {
                Some(p) => {
                    if v.len() == 1 {
                        let _gone = self.activities.drop_view(s.act, s.output);
                        (true, true)
                    } else {
                        let _gone = v.remove_at(p);
                        self.put_view(s.act, s.output, v);
                        (true, false)
                    }
                },
                None => (false, false),
            },
            None => (false, false),
        }
    }

    /// The workspaces in `work` that are still in the pool, oldest first.
    fn strayed_ids(&self, work: &Vec<Stray>) -> (ids: Vec<WorkspaceId>)
        ensures
            ids@ == crate::materialize::ids_of(self@.pool.items.filter(strayed(work@))),
    {
        let ghost p = strayed(work@);
        let ghost items = self@.pool.items;
        let mut ids: Vec<WorkspaceId> = Vec::new();
        let mut i: usize = 0;
        while i < self.workspaces.items.len()
            invariant
                i <= self.workspaces.items@.len(),
                items == self@.pool.items,
                p == strayed(work@),
                ids@ == crate::materialize::ids_of(items.take(i as int).filter(p)),
            decreases self.workspaces.items@.len() - i,
        {
            let id = self.workspaces.items[i].id;
            let ghost w = items[i as int];
            let mut found = false;
            let mut k: usize = 0;
            while k < work.len()
                invariant
                    k <= work@.len(),
                    found == exists|j: int| 0 <= j < k && (#[trigger] work@[j]).id == id,
                decreases work@.len() - k,
            {
                if work[k].id == id {
                    found = true;
                }
                k = k + 1;
            }
            proof {
                assert(items.take(i + 1).drop_last() =~= items.take(i as int));
                assert(items.take(i + 1).last() == w);
                assert(w.id == id);
                reveal(Seq::filter);
                assert(p(w) == found);
            }
            if found {
                ids.push(id);
                assert(ids@ =~= crate::materialize::ids_of(items.take(i + 1).filter(p)));
            }
            i = i + 1;
        }
        assert(items.take(i as int) =~= items);
        ids
    }

    /// Brings views into agreement with membership: every activity comes to show what it has, and
    /// nothing else.
    pub(crate) fn do_reconcile_views_with_membership(&mut self)
        requires
            old(self)@.reconcile().fits(),
        ensures
            final(self)@ == old(self)@.reconcile(),
    {
        if self.monitors.len() == 0 {
            return;
        }
        let ghost start = self@;
        let wanted = self.all_missing();
        let unwanted = self.all_strays();
        let active = self.activities.active;
        let mut touched = false;
        let mut i: usize = 0;
        while i < wanted.len()
            invariant
                i <= wanted@.len(),
                touched == exists|j: int| 0 <= j < i && (#[trigger] wanted@[j]).act == active,
            decreases wanted@.len() - i,
        {
            if wanted[i].act == active {
                touched = true;
            }
            i = i + 1;
        }
        let ghost touched1 = touched;
        let mut k: usize = 0;
        while k < unwanted.len()
            invariant
                k <= unwanted@.len(),
                touched == (touched1 || exists|j: int|
                    0 <= j < k && (#[trigger] unwanted@[j]).act == active),
            decreases unwanted@.len() - k,
        {
            if unwanted[k].act == active {
                touched = true;
            }
            k = k + 1;
        }
        if touched {
            self.snap_all_workspace_animations();
        }
        let ghost s1 = self@;
        let mut any_busy = false;
        let mut i: usize = 0;
        while i < wanted.len()
            invariant
                i <= wanted@.len(),
                self@ == s1.show_all(wanted@.take(i as int)),
                any_busy == s1.shows_any_busy(wanted@.take(i as int)),
            decreases wanted@.len() - i,
        {
            proof {
                assert(wanted@.take(i + 1).drop_last() =~= wanted@.take(i as int));
            }
            let w = wanted[i];
            if let Some(out) = self.workspace_holding_output(w.id) {
                let busy = self.workspaces.is_busy(w.id);
                let pos = self.view_insert_above_trailing_bookend(w.act, out, w.id);
                if pos.is_some() && busy {
                    any_busy = true;
                }
            }
            i = i + 1;
        }
        assert(wanted@.take(i as int) =~= wanted@);
        let ghost s2 = self@;
        let mut dropped = false;
        let mut done: Vec<Stray> = Vec::new();
        let mut k: usize = 0;
        proof {
            lemma_show_all_leads(s1, wanted@);
        }
        while k < unwanted.len()
            invariant
                k <= unwanted@.len(),
                self@ == s2.unshow_all(unwanted@.take(k as int)),
                dropped == s2.drops_view(unwanted@.take(k as int)),
                done@ == s2.taken(unwanted@.take(k as int)),
            decreases unwanted@.len() - k,
        {
            proof {
                assert(unwanted@.take(k + 1).drop_last() =~= unwanted@.take(k as int));
                lemma_unshow_all_leads(s2, unwanted@.take(k as int));
                lemma_monitor_pos_leads(s2, self@, unwanted@[k as int].output);
            }
            let w = unwanted[k];
            let connected = self.monitor_idx(w.output).is_some();
            let (was, all) = self.unshow(w);
            if was {
                done.push(w);
            }
            if connected && all {
                dropped = true;
            }
            k = k + 1;
        }
        assert(unwanted@.take(k as int) =~= unwanted@);
        let ghost s2b = self@;
        let mut c: usize = 0;
        while c < done.len()
            invariant
                c <= done@.len(),
                self@ == s2b.collapse_all(done@.take(c as int)),
            decreases done@.len() - c,
        {
            assert(done@.take(c + 1).drop_last() =~= done@.take(c as int));
            self.collapse_empty_exclusive_ewaf_len2_view(done[c].act, done[c].output);
            c = c + 1;
        }
        assert(done@.take(c as int) =~= done@);
        let ghost s3 = self@;
        let ghost s4 = if dropped {
            s3.ensure_all()
        } else {
            s3
        };
        let ghost s5 = if any_busy {
            s4.normalize()
        } else {
            s4
        };
        proof {
            crate::bookends::lemma_normalize_leads(s4);
            let left = crate::materialize::ids_of(s5.pool.items.filter(strayed(done@)));
            crate::reclaim::lemma_reclaim_all_leads(s5, left);
            assert(start.reconcile() == s5.reclaim_all(left));
        }
        if dropped {
            self.ensure_all_activity_views();
        }
        if any_busy {
            let _minted = self.normalize_view_bookends();
        }
        let left = self.strayed_ids(&done);
        self.reclaim_unpinned_empty_workspaces(&left);
    }
}

/// The same outputs are at the same places.
pub proof fn lemma_monitor_pos_leads(s: LayoutModel, t: LayoutModel, out: OutputId)
    requires
        s.leads_to(t),
    ensures
        s.monitor_pos(out) == t.monitor_pos(out),
{
    let p = crate::layout::on_output(out);
    crate::search::lemma_find_from(s.monitors, p, 0);
    crate::search::lemma_find_from(t.monitors, p, 0);
    match (s.monitor_pos(out), t.monitor_pos(out)) {
        (Some(x), Some(y)) => {
            assert(s.monitors[y].output == t.monitors[y].output);
            assert(s.monitors[x].output == t.monitors[x].output);
            if x < y {
                assert(!p(t.monitors[x]));
            } else if y < x {
                assert(!p(s.monitors[y]));
            }
        },
        (Some(x), None) => {
            assert(s.monitors[x].output == t.monitors[x].output);
            assert(!p(t.monitors[x]));
        },
        (None, Some(y)) => {
            assert(s.monitors[y].output == t.monitors[y].output);
            assert(!p(s.monitors[y]));
        },
        (None, None) => {},
    }
}

} // verus!
