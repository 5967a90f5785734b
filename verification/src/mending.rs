//! The step that ends an operation: whatever it left undone is done, so that every activity again
//! shows what it has, once, with an empty workspace below it.

use vstd::prelude::*;

use crate::activity::{entry_models, ActivitiesModel, ActivityModel, EntryModel, ViewEntry};
use crate::bookends::lemma_normalize_leads;
use crate::disconnect::firsts;
use crate::ids::{ActivityId, OutputId, WorkspaceId};
use crate::layout::{on_output, Layout, LayoutModel};
use crate::materialize::ids_of;
use crate::membership::{dedup, distinct};
use crate::monitor::Monitor;
use crate::outputs::worth_keeping;
use crate::pool::PoolModel;
use crate::search::find;
use crate::view::{ViewModel, WorkspaceView};
use crate::workspace::WorkspaceModel;

verus! {

/// Whether one of `entries` shows workspace `x`.
pub open spec fn shown_among(entries: Seq<EntryModel>, x: WorkspaceId) -> bool {
    exists|j: int| 0 <= j < entries.len() && (#[trigger] entries[j]).view.ids.contains(x)
}

/// Whether one of `entries` is of output `out`.
pub open spec fn covers(entries: Seq<EntryModel>, out: OutputId) -> bool {
    exists|j: int| 0 <= j < entries.len() && (#[trigger] entries[j]).output == out
}

/// The predicate that picks the workspaces of activity `act` that none of `entries` shows.
pub open spec fn new_to(pool: PoolModel, act: ActivityId, entries: Seq<EntryModel>) -> spec_fn(
    WorkspaceId,
) -> bool {
    |x: WorkspaceId| pool.member(x, act) && !shown_among(entries, x)
}

/// What view `v` shows of activity `act` that none of `entries` does, once each.
pub open spec fn news(pool: PoolModel, act: ActivityId, entries: Seq<EntryModel>, v: ViewModel) -> Seq<
    WorkspaceId,
> {
    firsts(v.ids.filter(new_to(pool, act, entries)))
}

/// View `v` cut down to `ids`.
pub open spec fn cut(v: ViewModel, ids: Seq<WorkspaceId>) -> ViewModel {
    ViewModel {
        ids,
        active: if ids.contains(v.active) {
            v.active
        } else {
            ids[0]
        },
        previous: match v.previous {
            Some(p) => if ids.contains(p) {
                Some(p)
            } else {
                None
            },
            None => None,
        },
    }
}

/// `entries` without those of outputs that are not connected or that an earlier one is of, and
/// without what an earlier one shows or does not belong to activity `act`; an entry that showed
/// nothing else goes.
pub open spec fn untangled(
    pool: PoolModel,
    monitors: Seq<Monitor>,
    act: ActivityId,
    entries: Seq<EntryModel>,
) -> Seq<EntryModel>
    decreases entries.len(),
{
    if entries.len() == 0 {
        entries
    } else {
        let rest = untangled(pool, monitors, act, entries.drop_last());
        let e = entries.last();
        let ids = news(pool, act, rest, e.view);
        if find(monitors, on_output(e.output)) is Some && !covers(rest, e.output) && ids.len() > 0 {
            rest.push(EntryModel { view: cut(e.view, ids), ..e })
        } else {
            rest
        }
    }
}

/// Index `i` if there are more than `i`, or else the first.
pub open spec fn within(i: int, n: int) -> int {
    if 0 <= i < n {
        i
    } else {
        0
    }
}

/// The predicate that picks the workspaces with windows or a name.
pub open spec fn in_use() -> spec_fn(WorkspaceModel) -> bool {
    |w: WorkspaceModel| w.busy()
}

/// The predicate that picks the workspaces with windows or a name that are not among `ids`.
pub open spec fn in_use_beside(ids: Seq<WorkspaceId>) -> spec_fn(WorkspaceModel) -> bool {
    |w: WorkspaceModel| w.busy() && !ids.contains(w.id)
}

impl LayoutModel {
    /// The predicate that picks the workspaces that have windows or a name or are shown.
    pub open spec fn needed(self) -> spec_fn(WorkspaceModel) -> bool {
        |w: WorkspaceModel| w.busy() || self.is_shown(w.id)
    }

    /// The layout with nothing that waits.
    pub open spec fn unparked(self) -> LayoutModel {
        LayoutModel { parked: Seq::empty(), ..self }
    }

    /// No activity shows a workspace twice, or one that is not its own, or anything on an output
    /// that is not connected; and nothing waits.
    pub open spec fn untangle(self) -> LayoutModel {
        LayoutModel {
            acts: ActivitiesModel {
                list: Seq::new(
                    self.acts.list.len(),
                    |i: int| ActivityModel {
                        views: untangled(
                            self.pool,
                            self.monitors,
                            self.acts.list[i].id,
                            self.acts.list[i].views,
                        ),
                        ..self.acts.list[i]
                    },
                ),
                ..self.acts
            },
            parked: Seq::empty(),
            ..self
        }
    }

    /// A view of monitor `mon` with one empty workspace opened for activity `act`, unless it has a
    /// view there.
    pub open spec fn open_bare(self, mon: int, act: ActivityId) -> LayoutModel {
        if self.view_of(act, self.monitors[mon].output.id) is Some {
            self
        } else {
            self.open_over(mon, act, Seq::empty())
        }
    }

    /// Views of the first `n` monitors opened for activity `act`, where it has none.
    pub open spec fn bare_row(self, act: ActivityId, n: int) -> LayoutModel
        decreases n,
    {
        if n <= 0 {
            self
        } else {
            self.bare_row(act, n - 1).open_bare(n - 1, act)
        }
    }

    /// Views of every monitor opened for the first `n` activities, where they have none.
    pub open spec fn bare_rows(self, n: int) -> LayoutModel
        decreases n,
    {
        if n <= 0 {
            self
        } else {
            self.bare_rows(n - 1).bare_row(self.acts.list[n - 1].id, self.monitors.len() as int)
        }
    }

    /// The pool without empty workspaces that nothing shows.
    pub open spec fn discard(self) -> LayoutModel {
        LayoutModel {
            pool: PoolModel { items: self.pool.items.filter(self.needed()), ..self.pool },
            ..self
        }
    }

    /// The output on which workspace `id` is to be shown: the one on which it is shown elsewhere,
    /// or the one that it is routed to, or the first.
    pub open spec fn seat_of(self, id: WorkspaceId) -> OutputId {
        match self.holding_output(id) {
            Some(out) => out,
            None => match self.pool.get(id) {
                Some(w) => match w.output_id {
                    Some(out) => if self.monitor_pos(out) is Some {
                        out
                    } else {
                        self.monitors[0].output.id
                    },
                    None => self.monitors[0].output.id,
                },
                None => self.monitors[0].output.id,
            },
        }
    }

    /// Workspace `id` shown by activity `act` if it belongs to it.
    pub open spec fn seat(self, act: ActivityId, id: WorkspaceId) -> LayoutModel {
        if self.pool.member(id, act) && !self.shows_in(act, id) {
            self.install_into(act, self.seat_of(id), id)
        } else {
            self
        }
    }

    /// Workspace `id` shown by those of the first `n` activities that it belongs to.
    pub open spec fn seat_acts(self, id: WorkspaceId, n: int) -> LayoutModel
        decreases n,
    {
        if n <= 0 {
            self
        } else {
            self.seat_acts(id, n - 1).seat(self.acts.list[n - 1].id, id)
        }
    }

    /// Every workspace of `ids` shown by the activities that it belongs to.
    pub open spec fn seat_all(self, ids: Seq<WorkspaceId>) -> LayoutModel
        decreases ids.len(),
    {
        if ids.len() == 0 {
            self
        } else {
            self.seat_all(ids.drop_last()).seat_acts(ids.last(), self.acts.list.len() as int)
        }
    }

    /// What waits while no output is connected: what waited before, and then all else that has
    /// windows or a name.
    pub open spec fn waiting(self) -> Seq<WorkspaceId> {
        let kept = firsts(self.parked.filter(worth_keeping(self.pool)));
        kept + ids_of(self.pool.items.filter(in_use_beside(kept)))
    }

    /// The layout without an output: no view, and all that has windows or a name waits.
    pub open spec fn stow(self) -> LayoutModel {
        LayoutModel {
            acts: ActivitiesModel {
                list: Seq::new(
                    self.acts.list.len(),
                    |i: int| ActivityModel { views: Seq::empty(), ..self.acts.list[i] },
                ),
                ..self.acts
            },
            parked: self.waiting(),
            pool: PoolModel { items: self.pool.items.filter(in_use()), ..self.pool },
            ..self
        }
    }

    /// The layout with a view of every output for every activity, and no workspace shown twice.
    pub open spec fn covered(self) -> LayoutModel {
        let s = self.untangle();
        s.bare_rows(s.acts.list.len() as int)
    }

    /// The layout with every workspace that is needed shown by all its activities.
    pub open spec fn peopled(self) -> LayoutModel {
        let s = self.covered().discard();
        s.seat_all(ids_of(s.pool.items))
    }

    /// Every workspace lists an activity once, the activity that was active before is another one
    /// that exists, and both the primary and the focused monitor are there.
    pub open spec fn straightened(self) -> LayoutModel {
        LayoutModel {
            pool: PoolModel {
                items: Seq::new(
                    self.pool.items.len(),
                    |i: int| WorkspaceModel {
                        activities: distinct(self.pool.items[i].activities),
                        ..self.pool.items[i]
                    },
                ),
                ..self.pool
            },
            acts: ActivitiesModel {
                previous: match self.acts.previous {
                    Some(p) => if self.acts.has(p) && p != self.acts.active {
                        Some(p)
                    } else {
                        None
                    },
                    None => None,
                },
                ..self.acts
            },
            primary: within(self.primary, self.monitors.len() as int),
            focused: within(self.focused, self.monitors.len() as int),
            ..self
        }
    }

    /// The layout once an operation is over: every activity has one view of every connected output,
    /// which shows what the activity has, once, and ends with an empty workspace; nothing is in the
    /// pool that nothing shows. While no output is connected, all that has windows or a name waits,
    /// and there is nothing else.
    pub open spec fn mended(self) -> LayoutModel {
        self.straightened().arranged()
    }

    /// The layout with its views in order, or with everything put away if no output is connected.
    pub open spec fn arranged(self) -> LayoutModel {
        if self.monitors.len() == 0 {
            self.stow()
        } else {
            self.peopled().normalize()
        }
    }
}

/// Opening an empty view keeps the frame.
pub proof fn lemma_open_bare_leads(s: LayoutModel, mon: int, act: ActivityId)
    ensures
        s.leads_to(s.open_bare(mon, act)),
{
    let out = s.monitors[mon].output.id;
    let v = crate::materialize::framed(Seq::empty(), s.pool.next_id(), None);
    crate::materialize::lemma_add_view_ids(s.acts, act, out, v);
}

/// Opening empty views for an activity keeps the frame.
pub proof fn lemma_bare_row_leads(s: LayoutModel, act: ActivityId, k: int, n: int)
    requires
        0 <= k <= n,
    ensures
        s.leads_to(s.bare_row(act, n)),
        s.bare_row(act, k).leads_to(s.bare_row(act, n)),
    decreases n,
{
    if n > 0 {
        lemma_bare_row_leads(s, act, if k < n { k } else { n - 1 }, n - 1);
        lemma_open_bare_leads(s.bare_row(act, n - 1), n - 1, act);
    }
}

/// Opening empty views keeps the frame.
pub proof fn lemma_bare_rows_leads(s: LayoutModel, k: int, n: int)
    requires
        0 <= k <= n,
    ensures
        s.leads_to(s.bare_rows(n)),
        s.bare_rows(k).leads_to(s.bare_rows(n)),
    decreases n,
{
    if n > 0 {
        lemma_bare_rows_leads(s, if k < n { k } else { n - 1 }, n - 1);
        lemma_bare_row_leads(s.bare_rows(n - 1), s.acts.list[n - 1].id, 0, s.monitors.len() as int);
    }
}

/// Showing a workspace keeps the frame and the pool.
pub proof fn lemma_seat_acts_leads(s: LayoutModel, id: WorkspaceId, n: int)
    ensures
        s.leads_to(s.seat_acts(id, n)),
        s.seat_acts(id, n).pool == s.pool,
        s.seat_acts(id, n).monitors == s.monitors,
    decreases n,
{
    if n > 0 {
        lemma_seat_acts_leads(s, id, n - 1);
        let t = s.seat_acts(id, n - 1);
        crate::outputs::lemma_install_into_leads(t, s.acts.list[n - 1].id, t.seat_of(id), id);
    }
}

/// Showing workspaces keeps the frame and the pool.
pub proof fn lemma_seat_all_leads(s: LayoutModel, ids: Seq<WorkspaceId>)
    ensures
        s.leads_to(s.seat_all(ids)),
        s.seat_all(ids).pool == s.pool,
        s.seat_all(ids).monitors == s.monitors,
    decreases ids.len(),
{
    if ids.len() > 0 {
        lemma_seat_all_leads(s, ids.drop_last());
        lemma_seat_acts_leads(s.seat_all(ids.drop_last()), ids.last(), s.acts.list.len() as int);
    }
}

/// Untangling keeps the frame, but that nothing waits.
pub proof fn lemma_untangle_leads(s: LayoutModel)
    ensures
        s.unparked().leads_to(s.untangle()),
        s.untangle().pool == s.pool,
{
    assert(s.untangle().acts.ids() =~= s.acts.ids());
}

/// Arranging moves no counter back, and keeps monitors, activities and all that is not shown.
pub proof fn lemma_arranged_leads(s: LayoutModel)
    ensures
        s.before(s.arranged()),
        s.arranged().acts.ids() == s.acts.ids(),
        s.monitors.len() > 0 ==> s.unparked().leads_to(s.arranged()),
        s.arranged().monitors.len() == s.monitors.len(),
        s.monitors.len() > 0 ==> s.untangle().leads_to(s.covered()) && s.covered().discard().leads_to(
            s.peopled(),
        ) && s.peopled().leads_to(s.arranged()),
{
    if s.monitors.len() == 0 {
        assert(s.arranged().acts.ids() =~= s.acts.ids());
    } else {
        let u = s.untangle();
        lemma_untangle_leads(s);
        lemma_bare_rows_leads(u, 0, u.acts.list.len() as int);
        let d = s.covered().discard();
        lemma_seat_all_leads(d, ids_of(d.pool.items));
        lemma_normalize_leads(s.peopled());
    }
}

/// Straightening keeps the counters and which activities there are.
pub proof fn lemma_straightened_leads(s: LayoutModel)
    ensures
        s.before(s.straightened()),
        s.straightened().acts.ids() == s.acts.ids(),
        s.straightened().acts.list == s.acts.list,
{
    assert(s.straightened().acts.ids() =~= s.acts.ids());
}

/// Mending moves no counter back, and keeps the monitors, the activities and which one is active.
pub proof fn lemma_mended_leads(s: LayoutModel)
    ensures
        s.before(s.mended()),
        s.mended().acts.ids() == s.acts.ids(),
        s.mended().monitors.len() == s.monitors.len(),
        s.mended().acts.active == s.acts.active,
        s.mended().primary == within(s.primary, s.monitors.len() as int),
        s.mended().focused == within(s.focused, s.monitors.len() as int),
        forall|i: int|
            0 <= i < s.monitors.len() ==> (#[trigger] s.monitors[i]).output
                == s.mended().monitors[i].output && s.monitors[i].overview_open
                == s.mended().monitors[i].overview_open && s.monitors[i].activity_switch
                == s.mended().monitors[i].activity_switch,
        s.mended().moving == s.moving,
        s.mended().bookmarks == s.bookmarks,
        s.mended().overview_open == s.overview_open,
{
    lemma_straightened_leads(s);
    lemma_arranged_leads(s.straightened());
}

/// Whether one of `entries` shows workspace `x`.
fn is_shown_among(entries: &Vec<ViewEntry>, x: WorkspaceId) -> (b: bool)
    ensures
        b == shown_among(entry_models(entries@), x),
{
    let ghost models = entry_models(entries@);
    let mut j: usize = 0;
    while j < entries.len()
        invariant
            j <= entries@.len(),
            models == entry_models(entries@),
            forall|k: int| 0 <= k < j ==> !(#[trigger] models[k]).view.ids.contains(x),
        decreases entries@.len() - j,
    {
        let here = entries[j].view.contains(x);
        assert(models[j as int].view == entries@[j as int].view@);
        if here {
            return true;
        }
        j = j + 1;
    }
    false
}

/// Whether `ids` hold `x`.
fn holds(ids: &Vec<WorkspaceId>, x: WorkspaceId) -> (b: bool)
    ensures
        b == ids@.contains(x),
{
    let mut i: usize = 0;
    while i < ids.len()
        invariant
            i <= ids@.len(),
            forall|k: int| 0 <= k < i ==> ids@[k] != x,
        decreases ids@.len() - i,
    {
        if ids[i] == x {
            return true;
        }
        i = i + 1;
    }
    false
}

/// Whether one of `entries` is of output `out`.
fn has_entry_of(entries: &Vec<ViewEntry>, out: OutputId) -> (b: bool)
    ensures
        b == covers(entry_models(entries@), out),
{
    let ghost models = entry_models(entries@);
    let mut j: usize = 0;
    while j < entries.len()
        invariant
            j <= entries@.len(),
            models == entry_models(entries@),
            forall|k: int| 0 <= k < j ==> (#[trigger] models[k]).output != out,
        decreases entries@.len() - j,
    {
        assert(models[j as int].output == entries@[j as int].output);
        if entries[j].output == out {
            return true;
        }
        j = j + 1;
    }
    false
}

/// View `v` cut down to `ids`.
fn cut_down(v: &WorkspaceView, ids: Vec<WorkspaceId>) -> (r: WorkspaceView)
    requires
        ids@.len() > 0,
    ensures
        r@ == cut(v@, ids@),
{
    let active = if holds(&ids, v.active()) {
        v.active()
    } else {
        ids[0]
    };
    let previous = match v.previous() {
        Some(p) => if holds(&ids, p) {
            Some(p)
        } else {
            None
        },
        None => None,
    };
    WorkspaceView::from_parts(ids, active, previous)
}

impl Layout {
    /// What view `v` shows of activity `act` that none of `entries` does, once each.
    fn pick_news(&self, act: ActivityId, entries: &Vec<ViewEntry>, v: &WorkspaceView) -> (r: Vec<
        WorkspaceId,
    >)
        ensures
            r@ == news(self@.pool, act, entry_models(entries@), v@),
    {
        let ghost p = new_to(self@.pool, act, entry_models(entries@));
        let ids = v.ids();
        let mut r: Vec<WorkspaceId> = Vec::new();
        let mut i: usize = 0;
        proof {
            reveal(Seq::filter);
        }
        while i < ids.len()
            invariant
                i <= ids@.len(),
                p == new_to(self@.pool, act, entry_models(entries@)),
                r@ == firsts(ids@.take(i as int).filter(p)),
            decreases ids@.len() - i,
        {
            proof {
                reveal(Seq::filter);
                assert(ids@.take(i + 1).drop_last() =~= ids@.take(i as int));
                let f = ids@.take(i as int).filter(p);
                assert(f.push(ids@[i as int]).drop_last() =~= f);
            }
            if self.workspaces.is_member(ids[i], act) && !is_shown_among(entries, ids[i]) && !holds(
                &r,
                ids[i],
            ) {
                r.push(ids[i]);
            }
            i = i + 1;
        }
        assert(ids@.take(i as int) =~= ids@);
        r
    }

    /// `entries` of activity `act` untangled.
    fn disentangle(&self, act: ActivityId, entries: &Vec<ViewEntry>) -> (r: Vec<ViewEntry>)
        ensures
            entry_models(r@) == untangled(
                self@.pool,
                self@.monitors,
                act,
                entry_models(entries@),
            ),
    {
        let ghost models = entry_models(entries@);
        let mut r: Vec<ViewEntry> = Vec::new();
        let mut j: usize = 0;
        assert(entry_models(r@) =~= untangled(self@.pool, self@.monitors, act, models.take(0)));
        while j < entries.len()
            invariant
                j <= entries@.len(),
                models == entry_models(entries@),
                entry_models(r@) == untangled(
                    self@.pool,
                    self@.monitors,
                    act,
                    models.take(j as int),
                ),
            decreases entries@.len() - j,
        {
            let e = &entries[j];
            assert(models.take(j + 1).drop_last() =~= models.take(j as int));
            assert(models[j as int] == e@);
            let ghost rest = entry_models(r@);
            let ids = self.pick_news(act, &r, &e.view);
            let connected = self.monitor_idx(e.output).is_some();
            if connected && !has_entry_of(&r, e.output) && ids.len() > 0 {
                let view = cut_down(&e.view, ids);
                r.push(ViewEntry { output: e.output, view });
                assert(entry_models(r@) =~= rest.push(
                    EntryModel {
                        view: cut(e@.view, news(self@.pool, act, rest, e@.view)),
                        ..e@
                    },
                ));
            }
            j = j + 1;
        }
        assert(models.take(j as int) =~= models);
        r
    }

    /// Sees to it that no activity shows a workspace twice, or one that is not its own, or anything
    /// on an output that is not connected; and that nothing waits.
    fn untangle(&mut self)
        ensures
            final(self)@ == old(self)@.untangle(),
    {
        let ghost start = self@;
        let ghost goal = start.untangle();
        let mut i: usize = 0;
        while i < self.activities.list.len()
            invariant
                i <= self.activities.list@.len(),
                start == old(self)@,
                goal == start.untangle(),
                self@ == (LayoutModel { acts: self@.acts, ..start }),
                self@.acts == (ActivitiesModel { list: self@.acts.list, ..start.acts }),
                self.activities.list@.len() == start.acts.list.len(),
                forall|k: int| 0 <= k < i ==> (#[trigger] self@.acts.list[k]) == goal.acts.list[k],
                forall|k: int|
                    i <= k < start.acts.list.len() ==> (#[trigger] self@.acts.list[k])
                        == start.acts.list[k],
            decreases self.activities.list@.len() - i,
        {
            let ghost before = self@.acts.list;
            assert(before[i as int] == start.acts.list[i as int]);
            let id = self.activities.list[i].id;
            let views = self.disentangle(id, &self.activities.list[i].views);
            self.activities.list[i].views = views;
            assert(self@.acts.list[i as int] == goal.acts.list[i as int]);
            assert forall|k: int| 0 <= k < start.acts.list.len() && k != i implies (
            #[trigger] self@.acts.list[k]) == before[k] by {}
            i = i + 1;
        }
        assert(self@.acts.list =~= goal.acts.list);
        self.disconnected_workspace_ids = Vec::new();
        assert(self@.parked =~= goal.parked);
    }

    /// Opens a view with one empty workspace for every activity and connected output without one.
    fn open_bare_views(&mut self)
        requires
            old(self)@.bare_rows(old(self)@.acts.list.len() as int).fits(),
        ensures
            final(self)@ == old(self)@.bare_rows(old(self)@.acts.list.len() as int),
    {
        let ghost start = self@;
        let ghost all = start.acts.list.len() as int;
        let ids = self.activities.ids();
        let n: usize = self.monitors.len();
        let mut a: usize = 0;
        while a < ids.len()
            invariant
                a <= ids@.len(),
                n == start.monitors.len(),
                ids@ == start.acts.ids(),
                all == start.acts.list.len(),
                self@ == start.bare_rows(a as int),
                start.leads_to(self@),
                start.bare_rows(all).fits(),
            decreases ids@.len() - a,
        {
            let ghost here = self@;
            let act = ids[a];
            proof {
                lemma_bare_rows_leads(start, a + 1, all);
                assert(start.acts.ids()[a as int] == start.acts.list[a as int].id);
            }
            let mut m: usize = 0;
            while m < n
                invariant
                    m <= n,
                    n == start.monitors.len(),
                    start.leads_to(here),
                    self@ == here.bare_row(act, m as int),
                    here.leads_to(self@),
                    here.bare_row(act, n as int).fits(),
                decreases n - m,
            {
                proof {
                    lemma_bare_row_leads(here, act, m + 1, n as int);
                }
                let out = self.monitors[m].output.id;
                let missing = self.activities.view_on(act, out).is_none();
                if missing && self.activities.contains(act) {
                    let ghost before = self@;
                    let bottom = self.workspaces.mint(out, act);
                    let mut strip: Vec<WorkspaceId> = Vec::new();
                    strip.push(bottom);
                    assert(strip@ =~= Seq::<WorkspaceId>::empty().push(bottom));
                    self.activities.add_view(act, out, WorkspaceView::new(strip, 0));
                    assert(self@ == before.open_bare(m as int, act));
                }
                m = m + 1;
            }
            proof {
                lemma_bare_row_leads(here, act, 0, n as int);
            }
            a = a + 1;
        }
    }

    /// Takes out of the pool the empty workspaces that nothing shows.
    fn discard_unneeded(&mut self)
        ensures
            final(self)@ == old(self)@.discard(),
    {
        let ghost start = self@;
        let ghost p = start.needed();
        let ghost items = start.pool.items;
        let ghost mut done: int = 0;
        let mut i: usize = 0;
        proof {
            reveal(Seq::filter);
            assert(items.take(0).filter(p) + items.skip(0) =~= items);
        }
        while i < self.workspaces.items.len()
            invariant
                i <= self.workspaces.items@.len(),
                start == old(self)@,
                p == start.needed(),
                items == start.pool.items,
                0 <= done <= items.len(),
                i == items.take(done).filter(p).len(),
                self@.pool.items == items.take(done).filter(p) + items.skip(done),
                self@ == (LayoutModel { pool: self@.pool, ..start }),
                self@.pool.next == start.pool.next,
            decreases items.len() - done,
        {
            let ghost before = self@.pool.items;
            let ghost head = items.take(done).filter(p);
            proof {
                reveal(Seq::filter);
                assert(before[i as int] == items.skip(done)[0]);
                assert(items.take(done + 1).drop_last() =~= items.take(done));
            }
            let id = self.workspaces.items[i].id;
            let keep = self.workspaces.items[i].has_windows_or_name() || self.workspace_holding_output(
                id,
            ).is_some();
            assert(keep == p(items[done]));
            if keep {
                i = i + 1;
                assert(head.push(items[done]) + items.skip(done + 1) =~= before);
            } else {
                let _gone = self.workspaces.items.remove(i);
                assert(self@.pool.items =~= before.remove(i as int));
                assert(before.remove(i as int) =~= head + items.skip(done + 1));
            }
            proof {
                done = done + 1;
            }
        }
        assert(items.skip(done) =~= Seq::empty());
        assert(items.take(done) =~= items);
        assert(self@.pool.items =~= items.filter(p));
    }

    /// The output on which workspace `id` is to be shown.
    fn seat_of(&self, id: WorkspaceId) -> (out: OutputId)
        requires
            self@.monitors.len() > 0,
        ensures
            out == self@.seat_of(id),
    {
        if let Some(out) = self.workspace_holding_output(id) {
            return out;
        }
        if let Some(w) = self.workspaces.get(id) {
            if let Some(out) = w.output_id {
                if self.monitor_idx(out).is_some() {
                    return out;
                }
            }
        }
        self.monitors[0].output.id
    }

    /// Shows every workspace in the activities that it belongs to.
    fn seat_everyone(&mut self)
        requires
            old(self)@.monitors.len() > 0,
        ensures
            final(self)@ == old(self)@.seat_all(ids_of(old(self)@.pool.items)),
    {
        let ghost start = self@;
        let ghost all = ids_of(start.pool.items);
        let acts = self.activities.ids();
        let n: usize = self.workspaces.items.len();
        let mut i: usize = 0;
        assert(all.take(0) =~= Seq::empty());
        while i < n
            invariant
                i <= n,
                n == start.pool.items.len(),
                start.monitors.len() > 0,
                all == ids_of(start.pool.items),
                acts@ == start.acts.ids(),
                self@ == start.seat_all(all.take(i as int)),
            decreases n - i,
        {
            proof {
                lemma_seat_all_leads(start, all.take(i as int));
                assert(all.take(i + 1).drop_last() =~= all.take(i as int));
            }
            let ghost here = self@;
            let id = self.workspaces.items[i].id;
            assert(all[i as int] == id);
            let mut k: usize = 0;
            while k < acts.len()
                invariant
                    k <= acts@.len(),
                    here.monitors.len() > 0,
                    acts@ == here.acts.ids(),
                    self@ == here.seat_acts(id, k as int),
                decreases acts@.len() - k,
            {
                proof {
                    lemma_seat_acts_leads(here, id, k as int);
                    assert(here.acts.ids()[k as int] == here.acts.list[k as int].id);
                }
                let act = acts[k];
                let shows = match self.activities.get(act) {
                    Some(a) => a.output_of(id).is_some(),
                    None => false,
                };
                if self.workspaces.is_member(id, act) && !shows {
                    let out = self.seat_of(id);
                    let _pos = self.view_insert_above_trailing_bookend(act, out, id);
                }
                k = k + 1;
            }
            assert(here.acts.list.len() == here.acts.ids().len());
            assert(start.acts.list.len() == start.acts.ids().len());
            i = i + 1;
        }
        assert(all.take(i as int) =~= all);
    }

    /// Ends an operation: gives every activity what it lacks.
    pub(crate) fn mend(&mut self)
        requires
            old(self)@.mended().fits(),
        ensures
            final(self)@ == old(self)@.mended(),
    {
        self.straighten();
        self.arrange();
    }

    /// Puts the views in order, or puts everything away if no output is connected.
    fn arrange(&mut self)
        requires
            old(self)@.arranged().fits(),
        ensures
            final(self)@ == old(self)@.arranged(),
    {
        proof {
            lemma_arranged_leads(self@);
            lemma_untangle_leads(self@);
        }
        if self.monitors.len() == 0 {
            self.stow_all();
        } else {
            self.untangle();
            self.open_bare_views();
            self.discard_unneeded();
            self.seat_everyone();
            let _minted = self.normalize_view_bookends();
        }
    }

    /// Sees to it that every workspace lists an activity once, that the activity that was active
    /// before is another one that exists, and that the primary and the focused monitor are there.
    fn straighten(&mut self)
        ensures
            final(self)@ == old(self)@.straightened(),
    {
        let ghost start = self@;
        let ghost goal = start.straightened();
        let mut i: usize = 0;
        while i < self.workspaces.items.len()
            invariant
                i <= self.workspaces.items@.len(),
                start == old(self)@,
                goal == start.straightened(),
                self@ == (LayoutModel { pool: self@.pool, ..start }),
                self@.pool.next == start.pool.next,
                self.workspaces.items@.len() == start.pool.items.len(),
                forall|k: int| 0 <= k < i ==> (#[trigger] self@.pool.items[k]) == goal.pool.items[k],
                forall|k: int|
                    i <= k < start.pool.items.len() ==> (#[trigger] self@.pool.items[k])
                        == start.pool.items[k],
            decreases self.workspaces.items@.len() - i,
        {
            let ghost before = self@.pool.items;
            assert(before[i as int] == start.pool.items[i as int]);
            let once = dedup(&self.workspaces.items[i].activities);
            self.workspaces.items[i].activities = once;
            assert(self@.pool.items[i as int] == goal.pool.items[i as int]);
            assert forall|k: int| 0 <= k < start.pool.items.len() && k != i implies (
            #[trigger] self@.pool.items[k]) == before[k] by {}
            i = i + 1;
        }
        assert(self@.pool.items =~= goal.pool.items);
        if let Some(p) = self.activities.previous {
            if !self.activities.contains(p) || p == self.activities.active {
                self.activities.previous = None;
            }
        }
        if self.primary_idx >= self.monitors.len() {
            self.primary_idx = 0;
        }
        if self.active_monitor_idx >= self.monitors.len() {
            self.active_monitor_idx = 0;
        }
    }

    /// Puts everything away while no output is connected.
    fn stow_all(&mut self)
        ensures
            final(self)@ == old(self)@.stow(),
    {
        let ghost start = self@;
        let mut kept = self.parked_in_use();
        let ghost first = kept@;
        let ghost p = in_use_beside(first);
        let ghost items = start.pool.items;
        let mut i: usize = 0;
        proof {
            reveal(Seq::filter);
            assert(ids_of(items.take(0).filter(p)) =~= Seq::empty());
            assert(first + Seq::<WorkspaceId>::empty() =~= first);
        }
        let n: usize = self.workspaces.items.len();
        let prior = self.parked_in_use();
        while i < n
            invariant
                i <= n,
                n == items.len(),
                items == start.pool.items,
                self@ == start,
                prior@ == first,
                p == in_use_beside(first),
                kept@ == first + ids_of(items.take(i as int).filter(p)),
            decreases n - i,
        {
            proof {
                reveal(Seq::filter);
                assert(items.take(i + 1).drop_last() =~= items.take(i as int));
            }
            let ghost before = items.take(i as int).filter(p);
            let w = &self.workspaces.items[i];
            assert(items[i as int] == w@);
            if w.has_windows_or_name() && !holds(&prior, w.id) {
                kept.push(w.id);
                assert(ids_of(before.push(items[i as int])) =~= ids_of(before).push(w.id));
                assert(kept@ =~= first + ids_of(before.push(items[i as int])));
            }
            i = i + 1;
        }
        assert(items.take(i as int) =~= items);
        self.disconnected_workspace_ids = kept;
        self.drop_idle();
        self.drop_all_views();
    }

    /// What waits and has windows or a name, once each.
    fn parked_in_use(&self) -> (r: Vec<WorkspaceId>)
        ensures
            r@ == firsts(self@.parked.filter(worth_keeping(self@.pool))),
    {
        let ghost p = worth_keeping(self@.pool);
        let ghost parked = self@.parked;
        let mut r: Vec<WorkspaceId> = Vec::new();
        let mut i: usize = 0;
        proof {
            reveal(Seq::filter);
        }
        while i < self.disconnected_workspace_ids.len()
            invariant
                i <= self.disconnected_workspace_ids@.len(),
                parked == self.disconnected_workspace_ids@,
                p == worth_keeping(self@.pool),
                r@ == firsts(parked.take(i as int).filter(p)),
            decreases self.disconnected_workspace_ids@.len() - i,
        {
            proof {
                reveal(Seq::filter);
                assert(parked.take(i + 1).drop_last() =~= parked.take(i as int));
                let f = parked.take(i as int).filter(p);
                assert(f.push(parked[i as int]).drop_last() =~= f);
            }
            let id = self.disconnected_workspace_ids[i];
            if self.workspaces.is_busy(id) && !holds(&r, id) {
                r.push(id);
            }
            i = i + 1;
        }
        assert(parked.take(i as int) =~= parked);
        r
    }

    /// Takes out of the pool the workspaces without windows or a name.
    fn drop_idle(&mut self)
        ensures
            final(self)@ == (LayoutModel {
                pool: PoolModel {
                    items: old(self)@.pool.items.filter(in_use()),
                    ..old(self)@.pool
                },
                ..old(self)@
            }),
    {
        let ghost start = self@;
        let ghost p = in_use();
        let ghost items = start.pool.items;
        let ghost mut done: int = 0;
        let mut i: usize = 0;
        proof {
            reveal(Seq::filter);
            assert(items.take(0).filter(p) + items.skip(0) =~= items);
        }
        while i < self.workspaces.items.len()
            invariant
                i <= self.workspaces.items@.len(),
                start == old(self)@,
                p == in_use(),
                items == start.pool.items,
                0 <= done <= items.len(),
                i == items.take(done).filter(p).len(),
                self@.pool.items == items.take(done).filter(p) + items.skip(done),
                self@ == (LayoutModel { pool: self@.pool, ..start }),
                self@.pool.next == start.pool.next,
            decreases items.len() - done,
        {
            let ghost before = self@.pool.items;
            let ghost head = items.take(done).filter(p);
            proof {
                reveal(Seq::filter);
                assert(before[i as int] == items.skip(done)[0]);
                assert(items.take(done + 1).drop_last() =~= items.take(done));
            }
            if self.workspaces.items[i].has_windows_or_name() {
                i = i + 1;
                assert(head.push(items[done]) + items.skip(done + 1) =~= before);
            } else {
                let _gone = self.workspaces.items.remove(i);
                assert(self@.pool.items =~= before.remove(i as int));
                assert(before.remove(i as int) =~= head + items.skip(done + 1));
            }
            proof {
                done = done + 1;
            }
        }
        assert(items.skip(done) =~= Seq::empty());
        assert(items.take(done) =~= items);
        assert(self@.pool.items =~= items.filter(p));
    }

    /// Drops every view of every activity.
    fn drop_all_views(&mut self)
        ensures
            final(self)@ == (LayoutModel { acts: old(self)@.stow().acts, ..old(self)@ }),
    {
        let ghost start = self@;
        let ghost goal = start.stow().acts;
        let mut i: usize = 0;
        while i < self.activities.list.len()
            invariant
                i <= self.activities.list@.len(),
                start == old(self)@,
                goal == start.stow().acts,
                self@ == (LayoutModel { acts: self@.acts, ..start }),
                self@.acts == (ActivitiesModel { list: self@.acts.list, ..start.acts }),
                self.activities.list@.len() == start.acts.list.len(),
                forall|k: int| 0 <= k < i ==> (#[trigger] self@.acts.list[k]) == goal.list[k],
                forall|k: int|
                    i <= k < start.acts.list.len() ==> (#[trigger] self@.acts.list[k])
                        == start.acts.list[k],
            decreases self.activities.list@.len() - i,
        {
            let ghost before = self@.acts.list;
            assert(before[i as int] == start.acts.list[i as int]);
            self.activities.list[i].views = Vec::new();
            assert(self@.acts.list[i as int].views =~= Seq::empty());
            assert(self@.acts.list[i as int] == goal.list[i as int]);
            assert forall|k: int| 0 <= k < start.acts.list.len() && k != i implies (
            #[trigger] self@.acts.list[k]) == before[k] by {}
            i = i + 1;
        }
        assert(self@.acts.list =~= goal.list);
    }
}

} // verus!
