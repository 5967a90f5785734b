//! Giving every activity a view of every connected output.

use vstd::prelude::*;

use crate::activity::{Activities, ActivitiesModel, Activity, ActivityModel, EntryModel};
use crate::ids::{ActivityId, OutputId, WorkspaceId};
use crate::layout::{Layout, LayoutModel};
use crate::pool::{PoolModel, WorkspacePool};
use crate::view::{ViewModel, WorkspaceView};
use crate::workspace::WorkspaceModel;

verus! {

/// The predicate that picks the workspaces of activity `act` that are routed to output `out`.
pub open spec fn routed(act: ActivityId, out: OutputId) -> spec_fn(WorkspaceModel) -> bool {
    |w: WorkspaceModel| w.output_id == Some(out) && w.activities.contains(act)
}

/// The ids of a sequence of workspaces.
pub open spec fn ids_of(s: Seq<WorkspaceModel>) -> Seq<WorkspaceId> {
    Seq::new(s.len(), |i: int| s[i].id)
}

/// The workspaces of activity `act` that are routed to output `out`, oldest first.
pub open spec fn tagged(pool: PoolModel, act: ActivityId, out: OutputId) -> Seq<WorkspaceId> {
    ids_of(pool.items.filter(routed(act, out)))
}

/// View `v` without the workspaces in `ids`, though never without any.
pub open spec fn strip(v: ViewModel, ids: Seq<WorkspaceId>) -> ViewModel
    decreases ids.len(),
{
    if ids.len() == 0 {
        v
    } else {
        let rest = strip(v, ids.drop_last());
        match rest.position_of(ids.last()) {
            Some(p) => if rest.ids.len() > 1 {
                rest.remove_at(p)
            } else {
                rest
            },
            None => rest,
        }
    }
}

/// `views` with the workspaces in `ids` gone from every view but that of output `out`.
pub open spec fn strip_others(
    views: Seq<EntryModel>,
    out: OutputId,
    ids: Seq<WorkspaceId>,
) -> Seq<EntryModel> {
    Seq::new(
        views.len(),
        |i: int|
            if views[i].output != out {
                EntryModel { view: strip(views[i].view, ids), ..views[i] }
            } else {
                views[i]
            },
    )
}

/// The view that opens over `body`: an empty workspace `bottom` below it and, unless `body` is
/// empty, `top` above it if there is one. The first of `body` is active.
pub open spec fn framed(
    body: Seq<WorkspaceId>,
    bottom: WorkspaceId,
    top: Option<WorkspaceId>,
) -> ViewModel {
    match top {
        Some(t) => ViewModel::fresh(seq![t] + body.push(bottom), 1),
        None => ViewModel::fresh(body.push(bottom), 0),
    }
}

impl LayoutModel {
    /// A view of monitor `mon` opened for activity `act`. The workspaces that are routed there
    /// move in from the activity's other views.
    pub open spec fn open_view(self, mon: int, act: ActivityId) -> LayoutModel {
        let m = self.monitors[mon];
        let out = m.output.id;
        let body = tagged(self.pool, act, out);
        let bottom = self.pool.next_id();
        let p1 = self.pool.mint(out, act);
        match self.acts.get(act) {
            Some(a) => if body.len() > 0 {
                let stripped = self.acts.put(
                    act,
                    ActivityModel { views: strip_others(a.views, out, body), ..a },
                );
                if m.empty_workspace_above_first {
                    LayoutModel {
                        pool: p1.mint(out, act),
                        acts: stripped.add_view(act, out, framed(body, bottom, Some(p1.next_id()))),
                        ..self
                    }
                } else {
                    LayoutModel {
                        pool: p1,
                        acts: stripped.add_view(act, out, framed(body, bottom, None)),
                        ..self
                    }
                }
            } else {
                LayoutModel {
                    pool: p1,
                    acts: self.acts.add_view(act, out, framed(body, bottom, None)),
                    ..self
                }
            },
            None => self,
        }
    }

    /// A view of monitor `mon` opened for activity `act`, unless it has one.
    pub open spec fn ensure_view(self, mon: int, act: ActivityId) -> LayoutModel {
        if self.view_of(act, self.monitors[mon].output.id) is Some {
            self
        } else {
            self.open_view(mon, act)
        }
    }

    /// Views of the first `n` monitors opened for activity `act`, where it has none.
    pub open spec fn ensure_row(self, act: ActivityId, n: int) -> LayoutModel
        decreases n,
    {
        if n <= 0 {
            self
        } else {
            self.ensure_row(act, n - 1).ensure_view(n - 1, act)
        }
    }

    /// Views of every monitor opened for the first `n` activities, where they have none.
    pub open spec fn ensure_rows(self, n: int) -> LayoutModel
        decreases n,
    {
        if n <= 0 {
            self
        } else {
            self.ensure_rows(n - 1).ensure_row(
                self.acts.list[n - 1].id,
                self.monitors.len() as int,
            )
        }
    }

    /// Views of every monitor opened for every activity that has none.
    pub open spec fn ensure_all(self) -> LayoutModel {
        self.ensure_rows(self.acts.list.len() as int)
    }
}

/// Adding a view changes neither which activities there are nor their order.
pub proof fn lemma_add_view_ids(s: ActivitiesModel, act: ActivityId, out: OutputId, v: ViewModel)
    ensures
        s.add_view(act, out, v).ids() == s.ids(),
{
    crate::search::lemma_find_from(s.list, crate::activity::named(act), 0);
    assert(s.add_view(act, out, v).ids() =~= s.ids());
}

/// Replacing an activity by one of the same name changes no id.
pub proof fn lemma_put_ids(s: ActivitiesModel, act: ActivityId, a: ActivityModel)
    requires
        a.id == act,
    ensures
        s.put(act, a).ids() == s.ids(),
{
    crate::search::lemma_find_from(s.list, crate::activity::named(act), 0);
    assert(s.put(act, a).ids() =~= s.ids());
}

/// Opening a view keeps the frame.
pub broadcast proof fn lemma_open_view_leads(s: LayoutModel, mon: int, act: ActivityId)
    ensures
        s.leads_to(#[trigger] s.open_view(mon, act)),
{
    let m = s.monitors[mon];
    let out = m.output.id;
    let body = tagged(s.pool, act, out);
    let bottom = s.pool.next_id();
    let p1 = s.pool.mint(out, act);
    if let Some(a) = s.acts.get(act) {
        crate::search::lemma_find_from(s.acts.list, crate::activity::named(act), 0);
        let a2 = ActivityModel { views: strip_others(a.views, out, body), ..a };
        let stripped = s.acts.put(act, a2);
        lemma_put_ids(s.acts, act, a2);
        lemma_add_view_ids(stripped, act, out, framed(body, bottom, Some(p1.next_id())));
        lemma_add_view_ids(stripped, act, out, framed(body, bottom, None));
        lemma_add_view_ids(s.acts, act, out, framed(body, bottom, None));
    }
}

/// Opening a view where there is none keeps the frame.
pub broadcast proof fn lemma_ensure_view_leads(s: LayoutModel, mon: int, act: ActivityId)
    ensures
        s.leads_to(#[trigger] s.ensure_view(mon, act)),
{
    broadcast use lemma_open_view_leads;

}

/// Opening more views of one activity keeps the frame.
pub proof fn lemma_ensure_row_leads(s: LayoutModel, act: ActivityId, k: int, n: int)
    requires
        0 <= k <= n,
    ensures
        s.leads_to(s.ensure_row(act, n)),
        s.ensure_row(act, k).leads_to(s.ensure_row(act, n)),
    decreases n,
{
    broadcast use lemma_ensure_view_leads;

    if n > 0 {
        lemma_ensure_row_leads(s, act, if k < n { k } else { n - 1 }, n - 1);
    }
}

/// Opening the views of more activities keeps the frame.
pub proof fn lemma_ensure_rows_leads(s: LayoutModel, k: int, n: int)
    requires
        0 <= k <= n,
    ensures
        s.leads_to(s.ensure_rows(n)),
        s.ensure_rows(k).leads_to(s.ensure_rows(n)),
    decreases n,
{
    if n > 0 {
        lemma_ensure_rows_leads(s, if k < n { k } else { n - 1 }, n - 1);
        lemma_ensure_row_leads(
            s.ensure_rows(n - 1),
            s.acts.list[n - 1].id,
            0,
            s.monitors.len() as int,
        );
    }
}

/// Opening every missing view keeps the frame.
pub broadcast proof fn lemma_ensure_all_leads(s: LayoutModel)
    ensures
        s.leads_to(#[trigger] s.ensure_all()),
{
    lemma_ensure_rows_leads(s, 0, s.acts.list.len() as int);
}

/// The workspaces of activity `act` that are routed to output `out`, oldest first.
fn routed_to(pool: &WorkspacePool, act: ActivityId, out: OutputId) -> (ids: Vec<WorkspaceId>)
    ensures
        ids@ == tagged(pool@, act, out),
{
    let mut ids: Vec<WorkspaceId> = Vec::new();
    let mut i: usize = 0;
    while i < pool.items.len()
        invariant
            i <= pool.items@.len(),
            ids@ == ids_of(pool@.items.take(i as int).filter(routed(act, out))),
        decreases pool.items@.len() - i,
    {
        let ghost before = pool@.items.take(i as int);
        let ghost after = pool@.items.take(i + 1);
        proof {
            assert(after.drop_last() =~= before);
            assert(after.last() == pool.items@[i as int]@);
            reveal(Seq::filter);
        }
        let here = match pool.items[i].output_id {
            Some(o) => o == out,
            None => false,
        };
        if here && pool.items[i].belongs_to(act) {
            ids.push(pool.items[i].id);
            assert(ids@ =~= ids_of(after.filter(routed(act, out))));
        }
        i = i + 1;
    }
    assert(pool@.items.take(i as int) =~= pool@.items);
    ids
}

impl WorkspaceView {
    /// Takes the workspaces in `ids` out, though never the last one left.
    pub fn strip(&mut self, ids: &Vec<WorkspaceId>)
        ensures
            final(self)@ == strip(old(self)@, ids@),
    {
        let mut i: usize = 0;
        while i < ids.len()
            invariant
                i <= ids@.len(),
                self@ == strip(old(self)@, ids@.take(i as int)),
            decreases ids@.len() - i,
        {
            assert(ids@.take(i + 1).drop_last() =~= ids@.take(i as int));
            if let Some(p) = self.position_of(ids[i]) {
                if self.len() > 1 {
                    let _gone = self.remove_at(p);
                }
            }
            i = i + 1;
        }
        assert(ids@.take(i as int) =~= ids@);
    }
}

impl Activities {
    /// Takes the workspaces in `ids` out of activity `act`'s views, except that of output `out`.
    fn strip_others(&mut self, act: ActivityId, out: OutputId, ids: &Vec<WorkspaceId>)
        ensures
            final(self)@ == match old(self)@.get(act) {
                Some(a) => old(self)@.put(
                    act,
                    (ActivityModel { views: strip_others(a.views, out, ids@), ..a }),
                ),
                None => old(self)@,
            },
    {
        if let Some(p) = self.position_of(act) {
            self.list[p].strip_others(out, ids);
            assert(self@.list =~= old(self)@.list.update(
                p as int,
                ActivityModel {
                    views: strip_others(old(self)@.list[p as int].views, out, ids@),
                    ..old(self)@.list[p as int]
                },
            ));
        }
    }
}

impl Activity {
    /// Takes the workspaces in `ids` out of every view but that of output `out`.
    fn strip_others(&mut self, out: OutputId, ids: &Vec<WorkspaceId>)
        ensures
            final(self)@ == (ActivityModel {
                views: strip_others(old(self)@.views, out, ids@),
                ..old(self)@
            }),
    {
        let mut i: usize = 0;
        while i < self.views.len()
            invariant
                i <= self.views@.len(),
                self.views@.len() == old(self).views@.len(),
                self@ == (ActivityModel { views: self@.views, ..old(self)@ }),
                forall|j: int|
                    0 <= j < i ==> (#[trigger] self.views@[j])@ == strip_others(
                        old(self)@.views,
                        out,
                        ids@,
                    )[j],
                forall|j: int|
                    i <= j < self.views@.len() ==> #[trigger] self.views@[j] == old(self).views@[j],
            decreases self.views@.len() - i,
        {
            if self.views[i].output != out {
                self.views[i].view.strip(ids);
            }
            i = i + 1;
        }
        assert(self@.views =~= strip_others(old(self)@.views, out, ids@));
    }
}

impl Layout {
    /// Opens a view of monitor `mon_idx` for activity `act`, which has none there. The workspaces
    /// routed there move in from the activity's other views, with the bookends that they need.
    pub(crate) fn ensure_view_for(&mut self, mon_idx: usize, act: ActivityId)
        requires
            mon_idx < old(self)@.monitors.len(),
            old(self)@.monitors[mon_idx as int].output.id.0 != 0,
            old(self)@.view_of(act, old(self)@.monitors[mon_idx as int].output.id) is None,
            old(self)@.open_view(mon_idx as int, act).fits(),
        ensures
            final(self)@ == old(self)@.open_view(mon_idx as int, act),
    {
        self.open_view(mon_idx, act);
    }

    /// Opens a view of monitor `mon_idx` for activity `act`.
    fn open_view(&mut self, mon_idx: usize, act: ActivityId)
        requires
            mon_idx < old(self)@.monitors.len(),
            old(self)@.open_view(mon_idx as int, act).fits(),
        ensures
            final(self)@ == old(self)@.open_view(mon_idx as int, act),
    {
        if !self.activities.contains(act) {
            return;
        }
        let out = self.monitors[mon_idx].output.id;
        let leading = self.monitors[mon_idx].empty_workspace_above_first;
        let mut ids = routed_to(&self.workspaces, act, out);
        let ghost body = ids@;
        let lift = ids.len() > 0;
        if lift {
            self.activities.strip_others(act, out, &ids);
        }
        let bottom = self.workspaces.mint(out, act);
        let mut first: usize = 0;
        if lift && leading {
            let top = self.workspaces.mint(out, act);
            ids.insert(0, top);
            first = 1;
        }
        ids.push(bottom);
        proof {
            if lift && leading {
                assert(ids@ =~= seq![ids@[0]] + body.push(bottom));
            } else {
                assert(ids@ =~= body.push(bottom));
            }
        }
        self.activities.add_view(act, out, WorkspaceView::new(ids, first));
    }

    /// Opens a view of every connected output for every activity that has none.
    pub fn ensure_all_activity_views(&mut self)
        requires
            old(self)@.ensure_all().fits(),
        ensures
            final(self)@ == old(self)@.ensure_all(),
            old(self)@.whole() ==> final(self)@.whole(),
            old(self)@.whole() && old(self)@.orderly() ==> final(self)@.orderly(),
    {
        proof {
            if self@.whole() {
                crate::promises::lemma_ensure_rows_idle(self@, self@.acts.list.len() as int);
            }
        }
        let ghost start = self@;
        let ids = self.activities.ids();
        let n: usize = self.monitors.len();
        let mut a: usize = 0;
        while a < ids.len()
            invariant
                a <= ids@.len(),
                n == start.monitors.len(),
                ids@ == start.acts.ids(),
                self@ == start.ensure_rows(a as int),
                start.leads_to(self@),
                start.ensure_all().fits(),
            decreases ids@.len() - a,
        {
            let ghost here = self@;
            let act = ids[a];
            proof {
                lemma_ensure_rows_leads(start, a + 1, ids@.len() as int);
                assert(start.acts.ids()[a as int] == start.acts.list[a as int].id);
            }
            let mut m: usize = 0;
            while m < n
                invariant
                    m <= n,
                    n == start.monitors.len(),
                    start.leads_to(here),
                    self@ == here.ensure_row(act, m as int),
                    here.leads_to(self@),
                    here.ensure_row(act, n as int).fits(),
                    decreases n - m,
            {
                proof {
                    lemma_ensure_row_leads(here, act, m + 1, n as int);
                }
                let out = self.monitors[m].output.id;
                if self.activities.view_on(act, out).is_none() {
                    self.open_view(m, act);
                }
                m = m + 1;
            }
            proof {
                assert(here.monitors.len() == start.monitors.len());
                assert(self@ == start.ensure_rows(a + 1));
                lemma_ensure_rows_leads(start, 0, a + 1);
            }
            a = a + 1;
        }
    }

    /// Opens a view of the connected output `out` for activity `act`, unless it has one.
    pub(crate) fn view_in_activity_or_materialize(&mut self, act: ActivityId, out: OutputId)
        requires
            out.0 != 0,
            match old(self)@.monitor_pos(out) {
                Some(i) => old(self)@.ensure_view(i, act).fits(),
                None => true,
            },
        ensures
            final(self)@ == match old(self)@.monitor_pos(out) {
                Some(i) => old(self)@.ensure_view(i, act),
                None => old(self)@,
            },
    {
        if let Some(i) = self.monitor_idx(out) {
            if self.activities.view_on(act, out).is_none() {
                self.open_view(i, act);
            }
        }
    }
}

} // verus!
