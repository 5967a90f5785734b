//! Connecting and disconnecting outputs.

use vstd::prelude::*;

use crate::activity::{ActivitiesModel, ActivityModel};
use crate::ids::{ActivityId, OutputId, WorkspaceId};
use crate::layout::{Layout, LayoutModel, Remembered};
use crate::monitor::Monitor;
use crate::pool::PoolModel;
use crate::view::{ViewModel, WorkspaceView};
use crate::workspace::Output;

verus! {

/// The predicate that picks the workspaces of activity `act`.
pub open spec fn of_activity(pool: PoolModel, act: ActivityId) -> spec_fn(WorkspaceId) -> bool {
    |id: WorkspaceId| pool.member(id, act)
}

/// The predicate that picks the workspaces that are not of activity `act`.
pub open spec fn not_of_activity(pool: PoolModel, act: ActivityId) -> spec_fn(WorkspaceId) -> bool {
    |id: WorkspaceId| !pool.member(id, act)
}

/// The predicate that picks what was remembered of connector `c`.
pub open spec fn about(c: OutputId) -> spec_fn(Remembered) -> bool {
    |r: Remembered| r.connector == c
}

/// The workspace remembered of connector `c`.
pub open spec fn recalled(s: Seq<Remembered>, c: OutputId) -> Option<WorkspaceId> {
    match crate::search::find(s, about(c)) {
        Some(i) => Some(s[i].workspace),
        None => None,
    }
}

/// What was remembered, without connector `c`.
pub open spec fn forgotten(s: Seq<Remembered>, c: OutputId) -> Seq<Remembered> {
    match crate::search::find(s, about(c)) {
        Some(i) => s.remove(i),
        None => s,
    }
}

/// Position of the first workspace of view `v` that has windows or a name.
pub open spec fn first_busy(pool: PoolModel, v: ViewModel) -> Option<int> {
    crate::search::find(v.ids, worth_keeping(pool))
}

/// The predicate that picks the workspaces that have windows or a name.
pub open spec fn worth_keeping(pool: PoolModel) -> spec_fn(WorkspaceId) -> bool {
    |id: WorkspaceId| pool.busy(id)
}

/// The predicate that picks the workspaces that have neither windows nor a name.
pub open spec fn idle(pool: PoolModel) -> spec_fn(WorkspaceId) -> bool {
    |id: WorkspaceId| !pool.busy(id)
}

/// Activity `a` with its view of output `out`, if that shows an empty workspace, turned to the
/// first one with windows or a name.
pub open spec fn reseated(pool: PoolModel, a: ActivityModel, out: OutputId) -> ActivityModel {
    match a.view_of(out) {
        Some(v) => if pool.has(v.active) && !pool.busy(v.active) {
            match first_busy(pool, v) {
                Some(p) => a.set_view(out, v.set_active_at(p)),
                None => a,
            }
        } else {
            a
        },
        None => a,
    }
}

/// Activity `a` with its view of output `out` turned to workspace `id`, if it is there.
pub open spec fn turned_to(a: ActivityModel, out: OutputId, id: WorkspaceId) -> ActivityModel {
    match a.view_of(out) {
        Some(v) => match v.position_of(id) {
            Some(p) => a.set_view(out, v.set_active_at(p)),
            None => a,
        },
        None => a,
    }
}

impl LayoutModel {
    /// Monitor `m` connected, showing `body` to the active activity. If `remembered` is in
    /// `body`, it is the one that is active.
    pub open spec fn open_monitor(
        self,
        m: Monitor,
        body: Seq<WorkspaceId>,
        remembered: Option<WorkspaceId>,
    ) -> LayoutModel {
        let out = m.output.id;
        let act = self.acts.active;
        let p0 = self.pool.bind_all(body, m.output);
        let bottom = p0.next_id();
        let p1 = p0.mint(out, act);
        let top = if m.empty_workspace_above_first && body.len() > 0 {
            Some(p1.next_id())
        } else {
            None
        };
        let v = crate::materialize::framed(body, bottom, top);
        LayoutModel {
            pool: if top is Some {
                p1.mint(out, act)
            } else {
                p1
            },
            acts: self.acts.add_view(
                act,
                out,
                match remembered {
                    Some(r) => if body.contains(r) {
                        ViewModel { active: r, ..v }
                    } else {
                        v
                    },
                    None => v,
                },
            ),
            monitors: self.monitors.push(m),
            ..self
        }
    }

    /// Workspace `id` put into the view of output `out` of those of the first `n` activities that
    /// it belongs to.
    pub open spec fn install_members(self, out: OutputId, id: WorkspaceId, n: int) -> LayoutModel
        decreases n,
    {
        if n <= 0 {
            self
        } else {
            let s = self.install_members(out, id, n - 1);
            let act = self.acts.list[n - 1].id;
            if self.pool.member(id, act) {
                s.install_into(act, out, id)
            } else {
                s
            }
        }
    }

    /// Whether one of the first `n` activities that workspace `id` belongs to lacks it in its view
    /// of output `out`.
    pub open spec fn lacks_member(self, out: OutputId, id: WorkspaceId, n: int) -> bool
        decreases n,
    {
        if n <= 0 {
            false
        } else {
            let s = self.install_members(out, id, n - 1);
            let act = self.acts.list[n - 1].id;
            ||| self.lacks_member(out, id, n - 1)
            ||| self.pool.member(id, act) && match s.view_of(act, out) {
                Some(v) => v.position_of(id) is None,
                None => false,
            }
        }
    }

    /// Workspace `id` put into the view of monitor `mon` of every activity it belongs to.
    pub open spec fn install(self, mon: int, id: WorkspaceId) -> LayoutModel {
        let out = self.monitors[mon].output.id;
        let n = self.acts.list.len() as int;
        if self.lacks_member(out, id, n) {
            self.install_members(out, id, n).normalize()
        } else {
            self.install_members(out, id, n)
        }
    }

    /// Every workspace in `ids` put into the view of monitor `mon` of every activity it belongs
    /// to.
    pub open spec fn install_all(self, mon: int, ids: Seq<WorkspaceId>) -> LayoutModel
        decreases ids.len(),
    {
        if ids.len() == 0 {
            self
        } else {
            self.install_all(mon, ids.drop_last()).install(mon, ids.last())
        }
    }

    /// The views of output `out` of all activities but `act` that show an empty workspace, turned
    /// to the first one with windows or a name.
    pub open spec fn reseat(self, out: OutputId, act: ActivityId) -> LayoutModel {
        LayoutModel {
            acts: ActivitiesModel {
                list: Seq::new(
                    self.acts.list.len(),
                    |i: int|
                        if self.acts.list[i].id == act {
                            self.acts.list[i]
                        } else {
                            reseated(self.pool, self.acts.list[i], out)
                        },
                ),
                ..self.acts
            },
            ..self
        }
    }

    /// The views of output `out` of every activity that workspace `id` belongs to, turned to it.
    pub open spec fn turn_members(self, out: OutputId, id: WorkspaceId) -> LayoutModel {
        LayoutModel {
            acts: ActivitiesModel {
                list: Seq::new(
                    self.acts.list.len(),
                    |i: int|
                        if self.pool.member(id, self.acts.list[i].id) {
                            turned_to(self.acts.list[i], out, id)
                        } else {
                            self.acts.list[i]
                        },
                ),
                ..self.acts
            },
            ..self
        }
    }

    /// What was remembered of connector `c`, forgotten.
    pub open spec fn forget(self, c: OutputId) -> LayoutModel {
        LayoutModel { remembered: forgotten(self.remembered, c), ..self }
    }

    /// The first output connected.
    pub open spec fn add_first_output(self, m: Monitor) -> LayoutModel {
        let act = self.acts.active;
        let out = m.output.id;
        let drained = self.parked;
        let members = drained.filter(of_activity(self.pool, act));
        let others = drained.filter(not_of_activity(self.pool, act));
        let remembered = recalled(self.remembered, m.output.connector);
        let s1 = LayoutModel { parked: Seq::empty(), ..self.forget(m.output.connector) };
        let s2 = LayoutModel {
            primary: 0,
            focused: 0,
            ..s1.open_monitor(m, members, remembered)
        };
        let s3 = LayoutModel { pool: s2.pool.bind_all(others, m.output), ..s2 };
        let s4 = s3.ensure_all().install_all(0, drained).reseat(out, act);
        match remembered {
            Some(r) => if s4.pool.has(r) && !s4.pool.member(r, act) {
                s4.turn_members(out, r)
            } else {
                s4
            },
            None => s4,
        }
    }
}

/// Opening a monitor only moves counters up.
pub proof fn lemma_open_monitor_before(
    s: LayoutModel,
    m: Monitor,
    body: Seq<WorkspaceId>,
    remembered: Option<WorkspaceId>,
)
    ensures
        s.before(s.open_monitor(m, body, remembered)),
{
    lemma_bind_all_next(s.pool, body, m.output);
}

/// Binding workspaces hands out no ids.
pub proof fn lemma_bind_all_next(p: PoolModel, ids: Seq<WorkspaceId>, output: Output)
    ensures
        p.bind_all(ids, output).next == p.next,
    decreases ids.len(),
{
    if ids.len() > 0 {
        lemma_bind_all_next(p, ids.drop_last(), output);
    }
}

/// Putting a workspace into a view keeps the frame.
pub broadcast proof fn lemma_install_into_leads(
    s: LayoutModel,
    act: ActivityId,
    out: OutputId,
    id: WorkspaceId,
)
    ensures
        s.leads_to(#[trigger] s.install_into(act, out, id)),
{
    broadcast use crate::reclaim::lemma_with_view_leads;

}

/// Putting a workspace into more views keeps the frame.
pub proof fn lemma_install_members_leads(s: LayoutModel, out: OutputId, id: WorkspaceId, n: int)
    ensures
        s.leads_to(s.install_members(out, id, n)),
        s.install_members(out, id, n).pool == s.pool,
    decreases n,
{
    broadcast use lemma_install_into_leads;

    if n > 0 {
        lemma_install_members_leads(s, out, id, n - 1);
    }
}

/// Putting a workspace into all the views it belongs to keeps the frame.
pub broadcast proof fn lemma_install_leads(s: LayoutModel, mon: int, id: WorkspaceId)
    ensures
        s.leads_to(#[trigger] s.install(mon, id)),
{
    broadcast use crate::bookends::lemma_normalize_leads;

    lemma_install_members_leads(s, s.monitors[mon].output.id, id, s.acts.list.len() as int);
}

/// Putting more workspaces into the views they belong to keeps the frame.
pub proof fn lemma_install_all_leads(s: LayoutModel, mon: int, ids: Seq<WorkspaceId>, k: int)
    requires
        0 <= k <= ids.len(),
    ensures
        s.leads_to(s.install_all(mon, ids)),
        s.install_all(mon, ids.take(k)).leads_to(s.install_all(mon, ids)),
    decreases ids.len(),
{
    broadcast use lemma_install_leads;

    if k == ids.len() {
        assert(ids.take(k) =~= ids);
        if ids.len() > 0 {
            lemma_install_all_leads(s, mon, ids.drop_last(), 0);
        }
    } else {
        lemma_install_all_leads(s, mon, ids.drop_last(), k);
        assert(ids.drop_last().take(k) =~= ids.take(k));
    }
}

impl Layout {
    /// The workspace remembered of connector `c`, which is then forgotten.
    pub(crate) fn recall(&mut self, c: OutputId) -> (id: Option<WorkspaceId>)
        ensures
            id == recalled(old(self)@.remembered, c),
            final(self)@ == old(self)@.forget(c),
    {
        let ghost p = about(c);
        let mut i: usize = 0;
        while i < self.last_active_workspace_id.len()
            invariant
                i <= self.last_active_workspace_id@.len(),
                *self == *old(self),
                p == about(c),
                crate::search::find(self@.remembered, p) == crate::search::find_from(
                    self@.remembered,
                    p,
                    i as int,
                ),
            decreases self.last_active_workspace_id@.len() - i,
        {
            if self.last_active_workspace_id[i].connector == c {
                let r = self.last_active_workspace_id.remove(i);
                return Some(r.workspace);
            }
            i = i + 1;
        }
        None
    }

    /// Connects monitor `m`, showing `body` to the active activity. If `remembered` is in `body`,
    /// it is the one that is active.
    pub(crate) fn open_monitor(&mut self, m: Monitor, body: Vec<WorkspaceId>, remembered: Option<WorkspaceId>)
        requires
            old(self)@.open_monitor(m, body@, remembered).fits(),
        ensures
            final(self)@ == old(self)@.open_monitor(m, body@, remembered),
    {
        let out = m.output.id;
        let act = self.activities.active;
        proof {
            lemma_bind_all_next(self@.pool, body@, m.output);
        }
        self.workspaces.bind_all(&body, &m.output);
        let ghost body0 = body@;
        let mut found = false;
        if let Some(r) = remembered {
            let mut i: usize = 0;
            while i < body.len()
                invariant
                    i <= body@.len(),
                    body@ == body0,
                    found == body@.take(i as int).contains(r),
                decreases body@.len() - i,
            {
                proof {
                    assert(body@.take(i + 1) =~= body@.take(i as int).push(body@[i as int]));
                    if body@.take(i as int).contains(r) {
                        let k = choose|k: int|
                            0 <= k < i && body@.take(i as int)[k] == r;
                        assert(body@.take(i + 1)[k] == r);
                    }
                    if body@[i as int] == r {
                        assert(body@.take(i + 1)[i as int] == r);
                    }
                }
                if body[i] == r {
                    found = true;
                }
                i = i + 1;
            }
            assert(body@.take(i as int) =~= body@);
        }
        let mut ids = body;
        let lead = m.empty_workspace_above_first && ids.len() > 0;
        let bottom = self.workspaces.mint(out, act);
        let mut first: usize = 0;
        if lead {
            let top = self.workspaces.mint(out, act);
            ids.insert(0, top);
            first = 1;
        }
        ids.push(bottom);
        proof {
            if lead {
                assert(ids@ =~= seq![ids@[0]] + body0.push(bottom));
            } else {
                assert(ids@ =~= body0.push(bottom));
            }
        }
        let fallback = ids[first];
        let active = match remembered {
            Some(r) => if found {
                r
            } else {
                fallback
            },
            None => fallback,
        };
        self.activities.add_view(act, out, WorkspaceView::from_parts(ids, active, None));
        self.monitors.push(m);
    }

    /// Puts every drained workspace into the view of monitor `mon_idx` of every activity it
    /// belongs to, with the bookends that takes.
    pub(crate) fn install_drained_by_membership(&mut self, drained: &Vec<WorkspaceId>, mon_idx: usize)
        requires
            mon_idx < old(self)@.monitors.len(),
            old(self)@.install_all(mon_idx as int, drained@).fits(),
        ensures
            final(self)@ == old(self)@.install_all(mon_idx as int, drained@),
    {
        let ghost start = self@;
        let mut i: usize = 0;
        while i < drained.len()
            invariant
                i <= drained@.len(),
                mon_idx < start.monitors.len(),
                self@ == start.install_all(mon_idx as int, drained@.take(i as int)),
                start.leads_to(self@),
                start.install_all(mon_idx as int, drained@).fits(),
            decreases drained@.len() - i,
        {
            proof {
                assert(drained@.take(i + 1).drop_last() =~= drained@.take(i as int));
                lemma_install_all_leads(start, mon_idx as int, drained@, i + 1);
                lemma_install_all_leads(start, mon_idx as int, drained@.take(i + 1), 0);
            }
            self.install(mon_idx, drained[i]);
            i = i + 1;
        }
        assert(drained@.take(i as int) =~= drained@);
    }

    /// Puts workspace `id` into the view of monitor `mon_idx` of every activity it belongs to.
    fn install(&mut self, mon_idx: usize, id: WorkspaceId)
        requires
            mon_idx < old(self)@.monitors.len(),
            old(self)@.install(mon_idx as int, id).fits(),
        ensures
            final(self)@ == old(self)@.install(mon_idx as int, id),
    {
        let ghost start = self@;
        let out = self.monitors[mon_idx].output.id;
        let acts = self.activities.ids();
        let mut any = false;
        let mut i: usize = 0;
        while i < acts.len()
            invariant
                i <= acts@.len(),
                acts@ == start.acts.ids(),
                self@ == start.install_members(out, id, i as int),
                any == start.lacks_member(out, id, i as int),
            decreases acts@.len() - i,
        {
            proof {
                lemma_install_members_leads(start, out, id, i as int);
                assert(start.acts.ids()[i as int] == start.acts.list[i as int].id);
            }
            if self.workspaces.is_member(id, acts[i]) {
                let pos = self.view_insert_above_trailing_bookend(acts[i], out, id);
                if pos.is_some() {
                    any = true;
                }
            }
            i = i + 1;
        }
        if any {
            let _minted = self.normalize_view_bookends();
        }
    }

    /// Turns the views of monitor `mon_idx` of all activities but `active_id` that show an empty
    /// workspace to the first one with windows or a name.
    pub(crate) fn reseat_bookend_active_boot(&mut self, mon_idx: usize, active_id: ActivityId)
        requires
            mon_idx < old(self)@.monitors.len(),
        ensures
            final(self)@ == old(self)@.reseat(
                old(self)@.monitors[mon_idx as int].output.id,
                active_id,
            ),
    {
        let ghost start = self@;
        let out = self.monitors[mon_idx].output.id;
        let mut i: usize = 0;
        while i < self.activities.list.len()
            invariant
                i <= self.activities.list@.len(),
                self.activities.list@.len() == start.acts.list.len(),
                self@ == (LayoutModel {
                    acts: ActivitiesModel { list: self@.acts.list, ..start.acts },
                    ..start
                }),
                forall|j: int|
                    0 <= j < i ==> #[trigger] self@.acts.list[j] == start.reseat(
                        out,
                        active_id,
                    ).acts.list[j],
                forall|j: int|
                    i <= j < start.acts.list.len() ==> #[trigger] self@.acts.list[j]
                        == start.acts.list[j],
            decreases self.activities.list@.len() - i,
        {
            let ghost here = self@;
            assert(self@.acts.list[i as int] == self.activities.list@[i as int]@);
            if self.activities.list[i].id != active_id {
                let copy = match self.activities.list[i].view_on(out) {
                    Some(v) => Some(v.duplicate()),
                    None => None,
                };
                if let Some(mut v) = copy {
                    if self.workspaces.contains(v.active()) && !self.workspaces.is_busy(v.active()) {
                        if let Some(p) = self.first_busy(&v) {
                            v.set_active_at(p);
                            self.activities.list[i].set_view(out, v);
                        }
                    }
                }
            }
            proof {
                assert forall|j: int| 0 <= j < start.acts.list.len() && j != i implies
                    #[trigger] self@.acts.list[j] == here.acts.list[j] by {}
                assert(self@.acts.list[i as int] == self.activities.list@[i as int]@);
            }
            i = i + 1;
        }
        assert(self@.acts.list =~= start.reseat(out, active_id).acts.list);
    }

    /// Position of the first workspace of view `v` that has windows or a name.
    fn first_busy(&self, v: &WorkspaceView) -> (pos: Option<usize>)
        ensures
            match pos {
                Some(p) => first_busy(self@.pool, v@) == Some(p as int) && p < v@.ids.len(),
                None => first_busy(self@.pool, v@) is None,
            },
    {
        let ghost q = worth_keeping(self@.pool);
        let mut i: usize = 0;
        while i < v.len()
            invariant
                i <= v@.ids.len(),
                q == worth_keeping(self@.pool),
                crate::search::find(v@.ids, q) == crate::search::find_from(v@.ids, q, i as int),
            decreases v@.ids.len() - i,
        {
            if self.workspaces.is_busy(v.id_at(i)) {
                return Some(i);
            }
            i = i + 1;
        }
        None
    }

    /// Turns the views of output `out` of every activity that workspace `id` belongs to, to it.
    fn turn_members(&mut self, out: OutputId, id: WorkspaceId)
        ensures
            final(self)@ == old(self)@.turn_members(out, id),
    {
        let ghost start = self@;
        let mut i: usize = 0;
        while i < self.activities.list.len()
            invariant
                i <= self.activities.list@.len(),
                self.activities.list@.len() == start.acts.list.len(),
                self@ == (LayoutModel {
                    acts: ActivitiesModel { list: self@.acts.list, ..start.acts },
                    ..start
                }),
                forall|j: int|
                    0 <= j < i ==> #[trigger] self@.acts.list[j] == start.turn_members(
                        out,
                        id,
                    ).acts.list[j],
                forall|j: int|
                    i <= j < start.acts.list.len() ==> #[trigger] self@.acts.list[j]
                        == start.acts.list[j],
            decreases self.activities.list@.len() - i,
        {
            let ghost here = self@;
            assert(self@.acts.list[i as int] == self.activities.list@[i as int]@);
            if self.workspaces.is_member(id, self.activities.list[i].id) {
                let copy = match self.activities.list[i].view_on(out) {
                    Some(v) => Some(v.duplicate()),
                    None => None,
                };
                if let Some(mut v) = copy {
                    if let Some(p) = v.position_of(id) {
                        v.set_active_at(p);
                        self.activities.list[i].set_view(out, v);
                    }
                }
            }
            proof {
                assert forall|j: int| 0 <= j < start.acts.list.len() && j != i implies
                    #[trigger] self@.acts.list[j] == here.acts.list[j] by {}
                assert(self@.acts.list[i as int] == self.activities.list@[i as int]@);
            }
            i = i + 1;
        }
        assert(self@.acts.list =~= start.turn_members(out, id).acts.list);
    }

    /// Connects the first output. The parked workspaces move in: those of the active activity at
    /// once, the others into the views of the activities they belong to.
    pub(crate) fn add_first_output(&mut self, m: Monitor)
        requires
            old(self)@.monitors.len() == 0,
            old(self)@.add_first_output(m).fits(),
        ensures
            final(self)@ == old(self)@.add_first_output(m),
    {
        let ghost start = self@;
        let act = self.activities.active;
        let out = m.output.id;
        let mut members: Vec<WorkspaceId> = Vec::new();
        let mut others: Vec<WorkspaceId> = Vec::new();
        let mut drained: Vec<WorkspaceId> = Vec::new();
        let mut i: usize = 0;
        while i < self.disconnected_workspace_ids.len()
            invariant
                i <= self.disconnected_workspace_ids@.len(),
                *self == *old(self),
                start == self@,
                act == start.acts.active,
                drained@ == start.parked.take(i as int),
                members@ == start.parked.take(i as int).filter(of_activity(start.pool, act)),
                others@ == start.parked.take(i as int).filter(not_of_activity(start.pool, act)),
            decreases self.disconnected_workspace_ids@.len() - i,
        {
            let id = self.disconnected_workspace_ids[i];
            proof {
                assert(start.parked.take(i + 1).drop_last() =~= start.parked.take(i as int));
                assert(start.parked.take(i + 1).last() == id);
                reveal(Seq::filter);
            }
            drained.push(id);
            if self.workspaces.is_member(id, act) {
                members.push(id);
            } else {
                others.push(id);
            }
            i = i + 1;
        }
        assert(start.parked.take(i as int) =~= start.parked);
        self.disconnected_workspace_ids = Vec::new();
        let remembered = self.recall(m.output.connector);
        let ghost s1 = self@;
        assert(s1 == LayoutModel { parked: Seq::empty(), ..start.forget(m.output.connector) });
        let ghost s2 = LayoutModel {
            primary: 0,
            focused: 0,
            ..s1.open_monitor(m, members@, remembered)
        };
        let ghost s3 = LayoutModel { pool: s2.pool.bind_all(others@, m.output), ..s2 };
        proof {
            lemma_open_monitor_before(s1, m, members@, remembered);
            lemma_bind_all_next(s2.pool, others@, m.output);
            crate::materialize::lemma_ensure_all_leads(s3);
            lemma_install_all_leads(s3.ensure_all(), 0, drained@, 0);
        }
        self.open_monitor(m, members, remembered);
        self.primary_idx = 0;
        self.active_monitor_idx = 0;
        self.workspaces.bind_all(&others, &m.output);
        assert(self@ == s3);
        self.ensure_all_activity_views();
        self.install_drained_by_membership(&drained, 0);
        proof {
            assert(s3.monitors[0] == m);
            assert(s3.ensure_all().monitors[0].output == m.output);
            assert(self@.monitors[0].output == m.output);
        }
        self.reseat_bookend_active_boot(0, act);
        if let Some(r) = remembered {
            if self.workspaces.contains(r) && !self.workspaces.is_member(r, act) {
                self.turn_members(out, r);
            }
        }
    }
}

} // verus!
