//! What each activity showed on an output that went away, so that it is there again once the output
//! is back: in the order in which the activity shows it by then or, if no output was left to show it
//! on, in the order in which it was last shown.

use vstd::prelude::*;

use crate::activity::{entry_models, ActivitiesModel, Activity, ActivityModel, EntryModel, ViewEntry};
use crate::connect::bound_for;
use crate::disconnect::{first_occurrences, firsts};
use crate::ids::{ActivityId, OutputId, WorkspaceId};
use crate::layout::{Layout, LayoutModel};
use crate::pool::PoolModel;
use crate::search::{find, find_from};
use crate::view::{ViewModel, WorkspaceView};
use crate::workspace::Output;

verus! {

/// Mathematical model of a [`Strip`].
pub struct StripModel {
    pub connector: OutputId,
    pub act: ActivityId,
    pub ids: Seq<WorkspaceId>,
    pub active: WorkspaceId,
}

/// What an activity showed on an output when it went away.
#[derive(Debug)]
pub struct Strip {
    /// The output's connector.
    pub connector: OutputId,
    /// The activity.
    pub act: ActivityId,
    /// The workspaces, in order.
    pub ids: Vec<WorkspaceId>,
    /// The one that was active.
    pub active: WorkspaceId,
}

impl View for Strip {
    type V = StripModel;

    open spec fn view(&self) -> StripModel {
        StripModel {
            connector: self.connector,
            act: self.act,
            ids: self.ids@,
            active: self.active,
        }
    }
}

/// The models of `s`.
pub open spec fn strip_models(s: Seq<Strip>) -> Seq<StripModel> {
    Seq::new(s.len(), |i: int| s[i]@)
}

/// The predicate that picks the strips of other connectors than `c`.
pub open spec fn off_connector(c: OutputId) -> spec_fn(StripModel) -> bool {
    |s: StripModel| s.connector != c
}

/// The predicate that picks the strip of activity `act` on connector `c`.
pub open spec fn strip_at(c: OutputId, act: ActivityId) -> spec_fn(StripModel) -> bool {
    |s: StripModel| s.connector == c && s.act == act
}

/// What the activities in `list` show on output `out`, noted under connector `c`.
pub open spec fn strips_on(list: Seq<ActivityModel>, c: OutputId, out: OutputId) -> Seq<StripModel>
    decreases list.len(),
{
    if list.len() == 0 {
        Seq::empty()
    } else {
        let rest = strips_on(list.drop_last(), c, out);
        match list.last().view_of(out) {
            Some(v) => rest.push(
                StripModel { connector: c, act: list.last().id, ids: v.ids, active: v.active },
            ),
            None => rest,
        }
    }
}

/// What activity `act` showed on the output that went last.
pub open spec fn latest(strips: Seq<StripModel>, act: ActivityId) -> Seq<WorkspaceId>
    decreases strips.len(),
{
    if strips.len() == 0 {
        Seq::empty()
    } else if strips.last().act == act {
        strips.last().ids
    } else {
        latest(strips.drop_last(), act)
    }
}

/// What `views` show, in order.
pub open spec fn listing(views: Seq<EntryModel>) -> Seq<WorkspaceId>
    decreases views.len(),
{
    if views.len() == 0 {
        Seq::empty()
    } else {
        listing(views.drop_last()) + views.last().view.ids
    }
}

/// The predicate that picks the workspaces of activity `act` that have windows or a name and, unless
/// `all`, are routed to `output`.
pub open spec fn comes_back(pool: PoolModel, output: Output, act: ActivityId, all: bool) -> spec_fn(
    WorkspaceId,
) -> bool {
    |x: WorkspaceId| pool.busy(x) && (all || bound_for(pool, x, output)) && pool.member(x, act)
}

/// The predicate that picks the workspaces that are not among `ids`.
pub open spec fn not_among(ids: Seq<WorkspaceId>) -> spec_fn(WorkspaceId) -> bool {
    |x: WorkspaceId| !ids.contains(x)
}

/// `active` if it is among `back`, or else `other`.
pub open spec fn preferred(
    back: Seq<WorkspaceId>,
    active: Option<WorkspaceId>,
    other: WorkspaceId,
) -> WorkspaceId {
    match active {
        Some(x) => if back.contains(x) {
            x
        } else {
            other
        },
        None => other,
    }
}

/// `ids` with the places of what is among `back` given to `order`, the last of it last.
pub open spec fn refilled(
    ids: Seq<WorkspaceId>,
    back: Seq<WorkspaceId>,
    order: Seq<WorkspaceId>,
) -> Seq<WorkspaceId>
    decreases ids.len(),
{
    if ids.len() == 0 {
        Seq::empty()
    } else if order.len() > 0 && back.contains(ids.last()) {
        refilled(ids.drop_last(), back, order.drop_last()).push(order.last())
    } else {
        refilled(ids.drop_last(), back, order).push(ids.last())
    }
}

/// View `v` with what is among `back` in the order of `back`, and all of it there.
pub open spec fn welcomed(v: ViewModel, back: Seq<WorkspaceId>, active: Option<WorkspaceId>) -> ViewModel {
    ViewModel {
        ids: refilled(firsts(v.ids + back), back, back),
        active: preferred(back, active, v.active),
        previous: v.previous,
    }
}

/// View entry `e` once `back` is shown on output `out`.
pub open spec fn settled_entry(
    e: EntryModel,
    out: OutputId,
    back: Seq<WorkspaceId>,
    active: Option<WorkspaceId>,
) -> EntryModel {
    if e.output == out {
        EntryModel { view: welcomed(e.view, back, active), ..e }
    } else {
        EntryModel {
            view: ViewModel { ids: e.view.ids.filter(not_among(back)), ..e.view },
            ..e
        }
    }
}

/// `views` once `back` is shown on output `out`.
pub open spec fn settled_entries(
    views: Seq<EntryModel>,
    out: OutputId,
    back: Seq<WorkspaceId>,
    active: Option<WorkspaceId>,
) -> Seq<EntryModel> {
    Seq::new(views.len(), |j: int| settled_entry(views[j], out, back, active))
}

impl LayoutModel {
    /// What each activity shows on monitor `idx` noted under its connector.
    pub open spec fn note_strips(self, idx: int) -> LayoutModel {
        let output = self.monitors[idx].output;
        LayoutModel {
            strips: self.strips.filter(off_connector(output.connector)) + strips_on(
                self.acts.list,
                output.connector,
                output.id,
            ),
            ..self
        }
    }

    /// What was noted under connector `c` forgotten.
    pub open spec fn forget_strips(self, c: OutputId) -> LayoutModel {
        LayoutModel { strips: self.strips.filter(off_connector(c)), ..self }
    }

    /// What activity `act` showed on connector `c`.
    pub open spec fn strip_of(self, c: OutputId, act: ActivityId) -> Option<StripModel> {
        match find(self.strips, strip_at(c, act)) {
            Some(i) => Some(self.strips[i]),
            None => None,
        }
    }

    /// The workspaces of activity `a` in the order in which a new output is to show them: as the
    /// primary monitor shows them, if the activity is active, or else as all of its views do. While
    /// no output is connected, as the one that went last did.
    pub open spec fn standing(self, a: ActivityModel) -> Seq<WorkspaceId> {
        if self.monitors.len() == 0 {
            latest(self.strips, a.id)
        } else if a.id == self.acts.active {
            match a.view_of(self.monitors[self.primary].output.id) {
                Some(v) => v.ids,
                None => Seq::empty(),
            }
        } else {
            listing(a.views)
        }
    }

    /// The same, of every activity.
    pub open spec fn standings(self) -> Seq<Seq<WorkspaceId>> {
        Seq::new(self.acts.list.len(), |i: int| self.standing(self.acts.list[i]))
    }

    /// Of the workspaces `order`, those of activity `act` that `output` is to show: those that have
    /// windows or a name and, unless `all`, are routed there.
    pub open spec fn returning(
        self,
        output: Output,
        act: ActivityId,
        order: Seq<WorkspaceId>,
        all: bool,
    ) -> Seq<WorkspaceId> {
        firsts(order.filter(comes_back(self.pool, output, act, all)))
    }

    /// The workspace that activity `act` had active on connector `c`.
    pub open spec fn was_active(self, c: OutputId, act: ActivityId) -> Option<WorkspaceId> {
        match self.strip_of(c, act) {
            Some(s) => Some(s.active),
            None => None,
        }
    }

    /// Activity `a` once what comes back to `output` is shown there, in the order of `order`.
    pub open spec fn reinstated(
        self,
        a: ActivityModel,
        output: Output,
        order: Seq<WorkspaceId>,
        all: bool,
    ) -> ActivityModel {
        let back = self.returning(output, a.id, order, all);
        let active = self.was_active(output.connector, a.id);
        let views = settled_entries(a.views, output.id, back, active);
        if back.len() == 0 {
            a
        } else if a.view_of(output.id) is Some {
            ActivityModel { views, ..a }
        } else {
            ActivityModel {
                views: views.push(
                    EntryModel {
                        output: output.id,
                        view: ViewModel {
                            ids: back,
                            active: preferred(back, active, back[0]),
                            previous: None,
                        },
                    },
                ),
                ..a
            }
        }
    }

    /// What comes back to `output` shown there by every activity that it belongs to, and nowhere
    /// else, in the order of `orders`.
    pub open spec fn reinstate(
        self,
        output: Output,
        orders: Seq<Seq<WorkspaceId>>,
        all: bool,
    ) -> LayoutModel {
        LayoutModel {
            acts: ActivitiesModel {
                list: Seq::new(
                    self.acts.list.len(),
                    |i: int| self.reinstated(self.acts.list[i], output, orders[i], all),
                ),
                ..self.acts
            },
            ..self
        }
    }
}

/// The models of `v`.
pub open spec fn order_models(v: Seq<Vec<WorkspaceId>>) -> Seq<Seq<WorkspaceId>> {
    Seq::new(v.len(), |i: int| v[i]@)
}

/// A copy of `ids`.
fn copy_ids(ids: &Vec<WorkspaceId>) -> (r: Vec<WorkspaceId>)
    ensures
        r@ == ids@,
{
    let mut r: Vec<WorkspaceId> = Vec::new();
    crate::disconnect::extend(&mut r, ids);
    assert(r@ =~= ids@);
    r
}

/// What of `ids` is not among `back`.
fn without_ids(ids: &Vec<WorkspaceId>, back: &Vec<WorkspaceId>) -> (r: Vec<WorkspaceId>)
    ensures
        r@ == ids@.filter(not_among(back@)),
{
    let ghost p = not_among(back@);
    let mut r: Vec<WorkspaceId> = Vec::new();
    let mut i: usize = 0;
    proof {
        reveal(Seq::filter);
    }
    while i < ids.len()
        invariant
            i <= ids@.len(),
            p == not_among(back@),
            r@ == ids@.take(i as int).filter(p),
        decreases ids@.len() - i,
    {
        proof {
            reveal(Seq::filter);
            assert(ids@.take(i + 1).drop_last() =~= ids@.take(i as int));
        }
        if !crate::disconnect::holds(back, ids[i]) {
            r.push(ids[i]);
        }
        i = i + 1;
    }
    assert(ids@.take(i as int) =~= ids@);
    r
}

/// Gives the places in `ids` of what is among `back` to `back`, in order.
fn refill(ids: &Vec<WorkspaceId>, back: &Vec<WorkspaceId>) -> (r: Vec<WorkspaceId>)
    ensures
        r@ == refilled(ids@, back@, back@),
{
    let mut r = copy_ids(ids);
    let mut i: usize = ids.len();
    let mut k: usize = back.len();
    let ghost goal = refilled(ids@, back@, back@);
    assert(ids@.take(i as int) =~= ids@);
    assert(back@.take(k as int) =~= back@);
    assert(goal + r@.skip(i as int) =~= goal);
    while i > 0
        invariant
            i <= ids@.len(),
            k <= back@.len(),
            r@.len() == ids@.len(),
            r@.take(i as int) == ids@.take(i as int),
            goal == refilled(ids@.take(i as int), back@, back@.take(k as int)) + r@.skip(i as int),
        decreases i,
    {
        let ghost before = r@;
        let ghost now = i as int;
        let ghost left = k as int;
        let ghost head = ids@.take(now);
        i = i - 1;
        assert(head.drop_last() =~= ids@.take(i as int));
        assert(head.last() == ids@[i as int]);
        assert(before.take(now)[i as int] == ids@[i as int]);
        if k > 0 && crate::disconnect::holds(back, ids[i]) {
            k = k - 1;
            r.set(i, back[k]);
            assert(back@.take(left).drop_last() =~= back@.take(k as int));
            assert(r@.skip(i as int) =~= seq![back@[k as int]] + before.skip(now));
        } else {
            assert(r@.skip(i as int) =~= seq![ids@[i as int]] + before.skip(now));
        }
        assert(r@.take(i as int) =~= ids@.take(i as int)) by {
            assert forall|j: int| 0 <= j < i implies r@[j] == ids@[j] by {
                assert(before.take(now)[j] == ids@.take(now)[j]);
            }
        }
        assert(goal =~= refilled(ids@.take(i as int), back@, back@.take(k as int)) + r@.skip(
            i as int,
        ));
    }
    assert(r@.skip(0) =~= r@);
    assert(ids@.take(0) =~= Seq::<WorkspaceId>::empty());
    assert(goal =~= r@);
    r
}

/// `active` if it is among `back`, or else `other`.
fn prefer(back: &Vec<WorkspaceId>, active: Option<WorkspaceId>, other: WorkspaceId) -> (x: WorkspaceId)
    ensures
        x == preferred(back@, active, other),
{
    match active {
        Some(x) => if crate::disconnect::holds(back, x) {
            x
        } else {
            other
        },
        None => other,
    }
}

impl Layout {
    /// Notes under its connector what each activity shows on the monitor at `idx`.
    pub(crate) fn note_strips(&mut self, idx: usize)
        requires
            idx < old(self)@.monitors.len(),
        ensures
            final(self)@ == old(self)@.note_strips(idx as int),
    {
        let output = self.monitors[idx].output;
        let c = output.connector;
        self.forget_strips(c);
        let ghost start = self@;
        let ghost kept = start.strips;
        let ghost list = start.acts.list;
        let mut i: usize = 0;
        assert(kept + strips_on(list.take(0), c, output.id) =~= kept);
        while i < self.activities.list.len()
            invariant
                i <= self.activities.list@.len(),
                list == start.acts.list,
                kept == start.strips,
                list.len() == self.activities.list@.len(),
                self@ == (LayoutModel { strips: self@.strips, ..start }),
                self@.strips == kept + strips_on(list.take(i as int), c, output.id),
            decreases self.activities.list@.len() - i,
        {
            let ghost before = self@.strips;
            assert(list.take(i + 1).drop_last() =~= list.take(i as int));
            let a = &self.activities.list[i];
            assert(list[i as int] == a@);
            if let Some(v) = a.view_on(output.id) {
                let strip = Strip {
                    connector: c,
                    act: a.id,
                    ids: copy_ids(v.ids()),
                    active: v.active(),
                };
                let ghost m = strip@;
                self.strips.push(strip);
                assert(self@.strips =~= before.push(m));
                assert(self@.strips =~= kept + strips_on(list.take(i as int), c, output.id).push(m));
            }
            i = i + 1;
        }
        assert(list.take(i as int) =~= list);
    }

    /// Forgets what was noted under connector `c`.
    pub(crate) fn forget_strips(&mut self, c: OutputId)
        ensures
            final(self)@ == old(self)@.forget_strips(c),
    {
        let ghost start = self@;
        let ghost p = off_connector(c);
        let ghost all = start.strips;
        let ghost mut done: int = 0;
        let mut i: usize = 0;
        proof {
            reveal(Seq::filter);
            assert(all.take(0).filter(p) + all.skip(0) =~= all);
        }
        while i < self.strips.len()
            invariant
                i <= self.strips@.len(),
                start == old(self)@,
                p == off_connector(c),
                all == start.strips,
                0 <= done <= all.len(),
                i == all.take(done).filter(p).len(),
                self@.strips == all.take(done).filter(p) + all.skip(done),
                self@ == (LayoutModel { strips: self@.strips, ..start }),
            decreases all.len() - done,
        {
            let ghost before = self@.strips;
            let ghost head = all.take(done).filter(p);
            proof {
                reveal(Seq::filter);
                assert(before[i as int] == all.skip(done)[0]);
                assert(all.take(done + 1).drop_last() =~= all.take(done));
            }
            if self.strips[i].connector != c {
                i = i + 1;
                assert(head.push(all[done]) + all.skip(done + 1) =~= before);
            } else {
                let _gone = self.strips.remove(i);
                assert(self@.strips =~= before.remove(i as int));
                assert(before.remove(i as int) =~= head + all.skip(done + 1));
            }
            proof {
                done = done + 1;
            }
        }
        assert(all.skip(done) =~= Seq::empty());
        assert(all.take(done) =~= all);
        assert(self@.strips =~= all.filter(p));
    }

    /// Position of what activity `act` showed on connector `c`.
    fn strip_pos(&self, c: OutputId, act: ActivityId) -> (pos: Option<usize>)
        ensures
            match pos {
                Some(i) => find(self@.strips, strip_at(c, act)) == Some(i as int) && i
                    < self.strips@.len(),
                None => find(self@.strips, strip_at(c, act)) is None,
            },
    {
        let ghost p = strip_at(c, act);
        let mut i: usize = 0;
        while i < self.strips.len()
            invariant
                i <= self.strips@.len(),
                p == strip_at(c, act),
                find(self@.strips, p) == find_from(self@.strips, p, i as int),
            decreases self.strips@.len() - i,
        {
            assert(self@.strips[i as int] == self.strips@[i as int]@);
            if self.strips[i].connector == c && self.strips[i].act == act {
                return Some(i);
            }
            i = i + 1;
        }
        None
    }

    /// What activity `act` showed on the output that went last.
    fn latest(&self, act: ActivityId) -> (r: Vec<WorkspaceId>)
        ensures
            r@ == latest(self@.strips, act),
    {
        let ghost all = self@.strips;
        let mut i: usize = self.strips.len();
        assert(all.take(i as int) =~= all);
        while i > 0
            invariant
                i <= self.strips@.len(),
                all == self@.strips,
                latest(all, act) == latest(all.take(i as int), act),
            decreases i,
        {
            assert(all.take(i as int).drop_last() =~= all.take(i - 1));
            i = i - 1;
            assert(all[i as int] == self.strips@[i as int]@);
            if self.strips[i].act == act {
                return copy_ids(&self.strips[i].ids);
            }
        }
        Vec::new()
    }

    /// The workspaces of the activity at `i` in the order in which a new output is to show them.
    fn standing(&self, i: usize) -> (r: Vec<WorkspaceId>)
        requires
            i < self@.acts.list.len(),
            self@.monitors.len() > 0 ==> self@.primary < self@.monitors.len(),
        ensures
            r@ == self@.standing(self@.acts.list[i as int]),
    {
        let a = &self.activities.list[i];
        assert(self@.acts.list[i as int] == a@);
        if self.monitors.len() == 0 {
            return self.latest(a.id);
        }
        if a.id == self.activities.active {
            return match a.view_on(self.monitors[self.primary_idx].output.id) {
                Some(v) => copy_ids(v.ids()),
                None => Vec::new(),
            };
        }
        let ghost all = a@.views;
        let mut r: Vec<WorkspaceId> = Vec::new();
        let mut j: usize = 0;
        assert(listing(all.take(0)) =~= r@);
        while j < a.views.len()
            invariant
                j <= a.views@.len(),
                all == a@.views,
                all.len() == a.views@.len(),
                r@ == listing(all.take(j as int)),
            decreases a.views@.len() - j,
        {
            assert(all.take(j + 1).drop_last() =~= all.take(j as int));
            assert(all[j as int] == a.views@[j as int]@);
            let ghost before = r@;
            crate::disconnect::extend(&mut r, a.views[j].view.ids());
            assert(r@ =~= before + all[j as int].view.ids);
            j = j + 1;
        }
        assert(all.take(j as int) =~= all);
        r
    }

    /// The workspaces of every activity in the order in which a new output is to show them.
    pub(crate) fn standings(&self) -> (r: Vec<Vec<WorkspaceId>>)
        requires
            self@.monitors.len() > 0 ==> self@.primary < self@.monitors.len(),
        ensures
            order_models(r@) == self@.standings(),
    {
        let mut r: Vec<Vec<WorkspaceId>> = Vec::new();
        let mut i: usize = 0;
        while i < self.activities.list.len()
            invariant
                i <= self.activities.list@.len(),
                self@.acts.list.len() == self.activities.list@.len(),
                self@.monitors.len() > 0 ==> self@.primary < self@.monitors.len(),
                r@.len() == i,
                forall|k: int|
                    0 <= k < i ==> (#[trigger] r@[k])@ == self@.standing(self@.acts.list[k]),
            decreases self.activities.list@.len() - i,
        {
            r.push(self.standing(i));
            i = i + 1;
        }
        assert(order_models(r@) =~= self@.standings());
        r
    }

    /// Of the workspaces `order`, those of activity `act` that `output` is to show.
    fn returning(&self, output: &Output, act: ActivityId, order: &Vec<WorkspaceId>, all: bool) -> (r:
        Vec<WorkspaceId>)
        ensures
            r@ == self@.returning(*output, act, order@, all),
    {
        let ghost p = comes_back(self@.pool, *output, act, all);
        let mut picked: Vec<WorkspaceId> = Vec::new();
        let mut i: usize = 0;
        proof {
            reveal(Seq::filter);
        }
        while i < order.len()
            invariant
                i <= order@.len(),
                p == comes_back(self@.pool, *output, act, all),
                picked@ == order@.take(i as int).filter(p),
            decreases order@.len() - i,
        {
            proof {
                reveal(Seq::filter);
                assert(order@.take(i + 1).drop_last() =~= order@.take(i as int));
            }
            let x = order[i];
            if self.workspaces.is_busy(x) && (all || self.workspaces.is_bound_for(x, output))
                && self.workspaces.is_member(x, act) {
                picked.push(x);
            }
            i = i + 1;
        }
        assert(order@.take(i as int) =~= order@);
        first_occurrences(&picked)
    }

    /// View `v` with what is among `back` in the order of `back`, and all of it there.
    fn welcome(
        &self,
        v: &WorkspaceView,
        back: &Vec<WorkspaceId>,
        active: Option<WorkspaceId>,
    ) -> (r: WorkspaceView)
        ensures
            r@ == welcomed(v@, back@, active),
    {
        let mut all = copy_ids(v.ids());
        crate::disconnect::extend(&mut all, back);
        assert(all@ =~= v@.ids + back@);
        let ids = refill(&first_occurrences(&all), back);
        WorkspaceView::from_parts(ids, prefer(back, active, v.active()), v.previous())
    }

    /// The views of activity `a` once what comes back to `output` is shown there.
    fn settle_entries(
        &self,
        a: &Activity,
        output: &Output,
        back: &Vec<WorkspaceId>,
        Ghost(order): Ghost<Seq<WorkspaceId>>,
        all: bool,
    ) -> (r: Vec<ViewEntry>)
        requires
            back@ == self@.returning(*output, a@.id, order, all),
            back@.len() > 0,
        ensures
            entry_models(r@) == self@.reinstated(a@, *output, order, all).views,
    {
        let active = match self.strip_pos(output.connector, a.id) {
            Some(k) => {
                assert(self@.strips[k as int] == self.strips@[k as int]@);
                Some(self.strips[k].active)
            },
            None => None,
        };
        let out = output.id;
        let ghost goal = settled_entries(a@.views, out, back@, active);
        let mut r: Vec<ViewEntry> = Vec::new();
        let mut j: usize = 0;
        while j < a.views.len()
            invariant
                j <= a.views@.len(),
                a@.views.len() == a.views@.len(),
                goal == settled_entries(a@.views, out, back@, active),
                entry_models(r@) == goal.take(j as int),
            decreases a.views@.len() - j,
        {
            let e = &a.views[j];
            assert(a@.views[j as int] == e@);
            let view = if e.output == out {
                self.welcome(&e.view, back, active)
            } else {
                WorkspaceView::from_parts(
                    without_ids(e.view.ids(), back),
                    e.view.active(),
                    e.view.previous(),
                )
            };
            let ghost before = r@;
            r.push(ViewEntry { output: e.output, view });
            assert(entry_models(r@) =~= entry_models(before).push(goal[j as int]));
            assert(goal.take(j + 1) =~= goal.take(j as int).push(goal[j as int]));
            j = j + 1;
        }
        assert(goal.take(j as int) =~= goal);
        if a.view_on(out).is_none() {
            let ghost before = r@;
            let first = back[0];
            let view = WorkspaceView::from_parts(
                copy_ids(back),
                prefer(back, active, first),
                None,
            );
            r.push(ViewEntry { output: out, view });
            assert(entry_models(r@) =~= entry_models(before).push(
                EntryModel {
                    output: out,
                    view: ViewModel {
                        ids: back@,
                        active: preferred(back@, active, back@[0]),
                        previous: None,
                    },
                },
            ));
        }
        r
    }

    /// Shows what comes back to `output` there, in every activity that it belongs to, in the order of
    /// `orders`.
    pub(crate) fn reinstate(&mut self, output: &Output, orders: &Vec<Vec<WorkspaceId>>, all: bool)
        requires
            orders@.len() == old(self)@.acts.list.len(),
        ensures
            final(self)@ == old(self)@.reinstate(*output, order_models(orders@), all),
    {
        let ghost start = self@;
        let ghost goal = start.reinstate(*output, order_models(orders@), all);
        let mut i: usize = 0;
        while i < self.activities.list.len()
            invariant
                i <= self.activities.list@.len(),
                start == old(self)@,
                goal == start.reinstate(*output, order_models(orders@), all),
                self@ == (LayoutModel { acts: self@.acts, ..start }),
                self@.acts == (ActivitiesModel { list: self@.acts.list, ..start.acts }),
                self.activities.list@.len() == start.acts.list.len(),
                orders@.len() == start.acts.list.len(),
                forall|k: int| 0 <= k < i ==> (#[trigger] self@.acts.list[k]) == goal.acts.list[k],
                forall|k: int|
                    i <= k < start.acts.list.len() ==> (#[trigger] self@.acts.list[k])
                        == start.acts.list[k],
            decreases self.activities.list@.len() - i,
        {
            let ghost before = self@.acts.list;
            let ghost order = order_models(orders@)[i as int];
            assert(before[i as int] == start.acts.list[i as int]);
            let id = self.activities.list[i].id;
            let back = self.returning(output, id, &orders[i], all);
            assert(back@ == start.returning(*output, id, order, all));
            if back.len() > 0 {
                let views = self.settle_entries(
                    &self.activities.list[i],
                    output,
                    &back,
                    Ghost(order),
                    all,
                );
                assert(self@.reinstated(before[i as int], *output, order, all) == start.reinstated(
                    before[i as int],
                    *output,
                    order,
                    all,
                ));
                self.activities.list[i].views = views;
                assert(self@.acts.list[i as int] == goal.acts.list[i as int]);
            }
            assert forall|k: int| 0 <= k < start.acts.list.len() && k != i implies (
            #[trigger] self@.acts.list[k]) == before[k] by {}
            i = i + 1;
        }
        assert(self@.acts.list =~= goal.acts.list);
    }
}

} // verus!
