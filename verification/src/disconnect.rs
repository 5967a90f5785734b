//! Disconnecting an output.

use vstd::prelude::*;

use crate::activity::{ActivitiesModel, ActivityModel};
use crate::ids::{ActivityId, OutputId, WorkspaceId};
use crate::layout::{Layout, LayoutModel, Remembered};
use crate::pool::{PoolModel, WorkspacePool};
use crate::workspace::Output;

verus! {

/// The workspaces that the activities in `list` show on output `out`, activity by activity.
pub open spec fn residents(list: Seq<ActivityModel>, out: OutputId) -> Seq<WorkspaceId>
    decreases list.len(),
{
    if list.len() == 0 {
        Seq::empty()
    } else {
        residents(list.drop_last(), out) + match list.last().view_of(out) {
            Some(v) => v.ids,
            None => Seq::empty(),
        }
    }
}

/// `s` with only the first occurrence of each element.
pub open spec fn firsts(s: Seq<WorkspaceId>) -> Seq<WorkspaceId>
    decreases s.len(),
{
    if s.len() == 0 {
        s
    } else {
        let rest = firsts(s.drop_last());
        if rest.contains(s.last()) {
            rest
        } else {
            rest.push(s.last())
        }
    }
}

/// The activities in `list` without their views of output `out`.
pub open spec fn all_dropped(list: Seq<ActivityModel>, out: OutputId) -> Seq<ActivityModel> {
    Seq::new(list.len(), |i: int| list[i].drop_view(out))
}

/// The workspaces with windows or a name that activity `a` shows on output `out`.
pub open spec fn movers(pool: PoolModel, a: ActivityModel, out: OutputId) -> Seq<WorkspaceId> {
    match a.view_of(out) {
        Some(v) => v.ids.filter(crate::outputs::worth_keeping(pool)),
        None => Seq::empty(),
    }
}

/// What was remembered, with `w` remembered of connector `c`.
pub open spec fn noted(s: Seq<Remembered>, c: OutputId, w: WorkspaceId) -> Seq<Remembered> {
    let r = Remembered { connector: c, workspace: w };
    match crate::search::find(s, crate::outputs::about(c)) {
        Some(i) => s.update(i, r),
        None => s.push(r),
    }
}

/// The index that stays on the same monitor once the one at `gone` is removed, or moves to the one
/// before.
pub open spec fn index_after(idx: int, gone: int) -> int {
    if idx >= gone && idx > 0 {
        idx - 1
    } else {
        idx
    }
}

impl LayoutModel {
    /// Workspace `id` moved over to `output`, into activity `act`'s view, above its last one.
    pub open spec fn migrate(self, act: ActivityId, id: WorkspaceId, output: Output) -> LayoutModel {
        let s = LayoutModel { pool: self.pool.unbind(id).bind(id, output), ..self };
        match s.view_of(act, output.id) {
            Some(v) => if v.ids.len() > 0 {
                s.with_view(act, output.id, v.insert(v.ids.len() - 1, id))
            } else {
                s
            },
            None => s,
        }
    }

    /// The workspaces `ids` moved over to `output`, into activity `act`'s view.
    pub open spec fn migrate_all(self, act: ActivityId, ids: Seq<WorkspaceId>, output: Output) -> LayoutModel
        decreases ids.len(),
    {
        if ids.len() == 0 {
            self
        } else {
            self.migrate_all(act, ids.drop_last(), output).migrate(act, ids.last(), output)
        }
    }

    /// What the activities in `from` show on output `out` moved over to `output`, each into the
    /// view of the same activity.
    pub open spec fn migrate_from(
        self,
        pool: PoolModel,
        from: Seq<ActivityModel>,
        out: OutputId,
        output: Output,
    ) -> LayoutModel
        decreases from.len(),
    {
        if from.len() == 0 {
            self
        } else {
            self.migrate_from(pool, from.drop_last(), out, output).migrate_all(
                from.last().id,
                movers(pool, from.last(), out),
                output,
            )
        }
    }

    /// The views of output `out` dropped from every activity.
    pub open spec fn drop_views(self, out: OutputId) -> LayoutModel {
        LayoutModel {
            acts: ActivitiesModel { list: all_dropped(self.acts.list, out), ..self.acts },
            ..self
        }
    }

    /// The last output gone: what has windows or a name is parked, the rest destroyed.
    pub open spec fn park_all(self, shown: Seq<WorkspaceId>, out: OutputId) -> LayoutModel {
        let all = shown + residents(self.acts.list, out);
        let parked = firsts(all.filter(crate::outputs::worth_keeping(self.pool)));
        let doomed = firsts(all.filter(crate::outputs::idle(self.pool)));
        let s = self.drop_views(out);
        LayoutModel {
            pool: s.pool.unbind_all(parked),
            parked,
            primary: 0,
            focused: 0,
            ..s
        }.destroy_all(doomed)
    }

    /// One of several outputs gone: what has windows or a name moves to the primary monitor, the
    /// rest is destroyed.
    pub open spec fn fold_into_primary(self, shown: Seq<WorkspaceId>, out: OutputId) -> LayoutModel {
        let kept = shown.filter(crate::outputs::worth_keeping(self.pool));
        let output = self.monitors[self.primary].output;
        let s1 = LayoutModel { pool: self.pool.unbind_all(kept), ..self }.append(
            self.primary,
            kept,
        );
        let doomed = firsts(
            shown.filter(crate::outputs::idle(self.pool)) + residents(s1.acts.list, out).filter(
                crate::outputs::idle(s1.pool),
            ),
        );
        s1.drop_views(out).migrate_from(s1.pool, s1.acts.list, out, output).destroy_all(
            doomed,
        ).ensure_all()
    }

    /// Monitor `idx` disconnected.
    pub open spec fn remove_output(self, idx: int) -> LayoutModel {
        let m = self.monitors[idx];
        let out = m.output.id;
        match self.active_view(out) {
            Some(v) => {
                let s = LayoutModel {
                    acts: self.acts.drop_view(self.acts.active, out),
                    monitors: self.monitors.remove(idx),
                    remembered: noted(self.remembered, m.output.connector, v.active),
                    ..self
                };
                if s.monitors.len() == 0 {
                    s.park_all(v.ids, out)
                } else {
                    LayoutModel {
                        primary: index_after(self.primary, idx),
                        focused: index_after(self.focused, idx),
                        ..s
                    }.fold_into_primary(v.ids, out)
                }
            },
            None => self,
        }
    }
}

impl LayoutModel {
    /// Monitor `idx` disconnected for good: what each activity showed there is noted, what it had
    /// to do there is done elsewhere, and the layout is whole again.
    pub open spec fn disconnect(self, idx: int) -> LayoutModel {
        self.note_strips(idx).remove_output(idx).mended()
    }
}

/// Appending workspaces keeps the frame.
pub broadcast proof fn lemma_append_leads(s: LayoutModel, mon: int, ids: Seq<WorkspaceId>)
    requires
        0 <= mon < s.monitors.len(),
    ensures
        s.leads_to(#[trigger] s.append(mon, ids)),
{
    broadcast use {
        crate::bookends::lemma_mint_into_leads,
        crate::reclaim::lemma_clean_up_leads,
        crate::reclaim::lemma_with_view_leads,
    };

    if ids.len() > 0 {
        let m = s.monitors[mon];
        let out = m.output.id;
        let act = s.acts.active;
        crate::outputs::lemma_bind_all_next(s.pool, ids, m.output);
        let s1 = LayoutModel { pool: s.pool.bind_all(ids, m.output), ..s };
        assert(s.leads_to(s1));
        if let Some(v) = s1.active_view(out) {
            if v.ids.len() > 0 {
                let v1 = crate::transfer::spliced(v, ids);
                let s2 = s1.with_view(act, out, v1);
                assert(s1.leads_to(s2));
                let s3 = if m.empty_workspace_above_first && s2.pool.busy(v1.ids[0]) {
                    s2.add_workspace_top(mon)
                } else {
                    s2
                };
                assert(s2.leads_to(s3));
                if let Some(v3) = s3.active_view(out) {
                    let s4 = if v.active_position() == v.ids.len() - 1 {
                        s3.with_view(act, out, v3.set_active_at(v3.ids.len() - 1))
                    } else {
                        s3
                    };
                    assert(s3.leads_to(s4));
                    let s5 = s4.settle(mon);
                    assert(s4.leads_to(s5));
                    assert(s5.leads_to(s5.clean_up(mon)));
                }
            }
        }
    }
}

/// Moving a workspace over keeps the frame.
pub broadcast proof fn lemma_migrate_leads(s: LayoutModel, act: ActivityId, id: WorkspaceId, output: Output)
    ensures
        s.leads_to(#[trigger] s.migrate(act, id, output)),
{
    broadcast use crate::reclaim::lemma_with_view_leads;

    let s1 = LayoutModel { pool: s.pool.unbind(id).bind(id, output), ..s };
    assert(s.leads_to(s1));
}

/// Moving workspaces over keeps the frame.
pub proof fn lemma_migrate_all_leads(s: LayoutModel, act: ActivityId, ids: Seq<WorkspaceId>, output: Output)
    ensures
        s.leads_to(s.migrate_all(act, ids, output)),
    decreases ids.len(),
{
    broadcast use lemma_migrate_leads;

    if ids.len() > 0 {
        lemma_migrate_all_leads(s, act, ids.drop_last(), output);
    }
}

/// Moving the workspaces of several activities over keeps the frame.
pub proof fn lemma_migrate_from_leads(
    s: LayoutModel,
    pool: PoolModel,
    from: Seq<ActivityModel>,
    out: OutputId,
    output: Output,
)
    ensures
        s.leads_to(s.migrate_from(pool, from, out, output)),
    decreases from.len(),
{
    if from.len() > 0 {
        lemma_migrate_from_leads(s, pool, from.drop_last(), out, output);
        lemma_migrate_all_leads(
            s.migrate_from(pool, from.drop_last(), out, output),
            from.last().id,
            movers(pool, from.last(), out),
            output,
        );
    }
}

/// Dropping the views of an output keeps the frame.
pub broadcast proof fn lemma_drop_views_leads(s: LayoutModel, out: OutputId)
    ensures
        s.leads_to(#[trigger] s.drop_views(out)),
{
    assert(s.drop_views(out).acts.ids() =~= s.acts.ids());
}

/// Whether `ids` holds `id`.
pub fn holds(ids: &Vec<WorkspaceId>, id: WorkspaceId) -> (b: bool)
    ensures
        b == ids@.contains(id),
{
    let mut i: usize = 0;
    while i < ids.len()
        invariant
            i <= ids@.len(),
            forall|j: int| 0 <= j < i ==> ids@[j] != id,
        decreases ids@.len() - i,
    {
        if ids[i] == id {
            return true;
        }
        i = i + 1;
    }
    false
}

/// The first occurrence of each element of `s`.
pub fn first_occurrences(s: &Vec<WorkspaceId>) -> (r: Vec<WorkspaceId>)
    ensures
        r@ == firsts(s@),
{
    let mut r: Vec<WorkspaceId> = Vec::new();
    let mut i: usize = 0;
    while i < s.len()
        invariant
            i <= s@.len(),
            r@ == firsts(s@.take(i as int)),
        decreases s@.len() - i,
    {
        assert(s@.take(i + 1).drop_last() =~= s@.take(i as int));
        if !holds(&r, s[i]) {
            r.push(s[i]);
        }
        i = i + 1;
    }
    assert(s@.take(i as int) =~= s@);
    r
}

/// Splits `ids` into those with windows or a name and the rest.
pub fn partition_busy(pool: &WorkspacePool, ids: &Vec<WorkspaceId>) -> (r: (
    Vec<WorkspaceId>,
    Vec<WorkspaceId>,
))
    ensures
        r.0@ == ids@.filter(crate::outputs::worth_keeping(pool@)),
        r.1@ == ids@.filter(crate::outputs::idle(pool@)),
{
    let mut busy: Vec<WorkspaceId> = Vec::new();
    let mut rest: Vec<WorkspaceId> = Vec::new();
    let mut i: usize = 0;
    while i < ids.len()
        invariant
            i <= ids@.len(),
            busy@ == ids@.take(i as int).filter(crate::outputs::worth_keeping(pool@)),
            rest@ == ids@.take(i as int).filter(crate::outputs::idle(pool@)),
        decreases ids@.len() - i,
    {
        let id = ids[i];
        proof {
            assert(ids@.take(i + 1).drop_last() =~= ids@.take(i as int));
            assert(ids@.take(i + 1).last() == id);
            reveal(Seq::filter);
        }
        if pool.is_busy(id) {
            busy.push(id);
        } else {
            rest.push(id);
        }
        i = i + 1;
    }
    assert(ids@.take(i as int) =~= ids@);
    (busy, rest)
}

/// Appends a copy of `more` to `ids`.
pub fn extend(ids: &mut Vec<WorkspaceId>, more: &Vec<WorkspaceId>)
    ensures
        final(ids)@ == old(ids)@ + more@,
{
    let mut i: usize = 0;
    while i < more.len()
        invariant
            i <= more@.len(),
            ids@ == old(ids)@ + more@.take(i as int),
        decreases more@.len() - i,
    {
        ids.push(more[i]);
        i = i + 1;
        assert(more@.take(i as int) =~= more@.take(i - 1).push(more@[i - 1]));
        assert(ids@ =~= old(ids)@ + more@.take(i as int));
    }
    assert(more@.take(i as int) =~= more@);
}

impl Layout {
    /// The workspaces that the activities show on output `out`, activity by activity.
    fn residents(&self, out: OutputId) -> (ids: Vec<WorkspaceId>)
        ensures
            ids@ == residents(self@.acts.list, out),
    {
        let mut ids: Vec<WorkspaceId> = Vec::new();
        let mut i: usize = 0;
        while i < self.activities.list.len()
            invariant
                i <= self.activities.list@.len(),
                ids@ == residents(self@.acts.list.take(i as int), out),
            decreases self.activities.list@.len() - i,
        {
            proof {
                assert(self@.acts.list.take(i + 1).drop_last() =~= self@.acts.list.take(i as int));
                assert(self@.acts.list.take(i + 1).last() == self.activities.list@[i as int]@);
            }
            if let Some(v) = self.activities.list[i].view_on(out) {
                extend(&mut ids, v.ids());
            } else {
                assert(ids@ + Seq::<WorkspaceId>::empty() =~= ids@);
            }
            i = i + 1;
        }
        assert(self@.acts.list.take(i as int) =~= self@.acts.list);
        ids
    }

    /// Drops every activity's view of output `out`.
    fn drop_views(&mut self, out: OutputId)
        ensures
            final(self)@ == old(self)@.drop_views(out),
    {
        let ghost start = self@;
        let mut i: usize = 0;
        while i < self.activities.list.len()
            invariant
                i <= self.activities.list@.len(),
                self.activities.list@.len() == start.acts.list.len(),
                self@ == (LayoutModel {
                    acts: ActivitiesModel { list: self@.acts.list, ..start.acts },
                    ..start
                }),
                forall|j: int|
                    0 <= j < i ==> #[trigger] self@.acts.list[j] == start.acts.list[j].drop_view(
                        out,
                    ),
                forall|j: int|
                    i <= j < start.acts.list.len() ==> #[trigger] self@.acts.list[j]
                        == start.acts.list[j],
            decreases self.activities.list@.len() - i,
        {
            let ghost here = self@;
            assert(self@.acts.list[i as int] == self.activities.list@[i as int]@);
            let _gone = self.activities.list[i].drop_view(out);
            proof {
                assert forall|j: int| 0 <= j < start.acts.list.len() && j != i implies
                    #[trigger] self@.acts.list[j] == here.acts.list[j] by {}
                assert(self@.acts.list[i as int] == self.activities.list@[i as int]@);
            }
            i = i + 1;
        }
        assert(self@.acts.list =~= all_dropped(start.acts.list, out));
    }

    /// Remembers that workspace `w` was shown on connector `c`.
    fn note(&mut self, c: OutputId, w: WorkspaceId)
        ensures
            final(self)@ == (LayoutModel {
                remembered: noted(old(self)@.remembered, c, w),
                ..old(self)@
            }),
    {
        let r = Remembered { connector: c, workspace: w };
        let ghost p = crate::outputs::about(c);
        let mut i: usize = 0;
        while i < self.last_active_workspace_id.len()
            invariant
                i <= self.last_active_workspace_id@.len(),
                *self == *old(self),
                r == (Remembered { connector: c, workspace: w }),
                p == crate::outputs::about(c),
                crate::search::find(self@.remembered, p) == crate::search::find_from(
                    self@.remembered,
                    p,
                    i as int,
                ),
            decreases self.last_active_workspace_id@.len() - i,
        {
            if self.last_active_workspace_id[i].connector == c {
                self.last_active_workspace_id[i] = r;
                return;
            }
            i = i + 1;
        }
        self.last_active_workspace_id.push(r);
    }

    /// Moves workspace `id` over to `output`, into activity `act`'s view, above its last one.
    fn migrate(&mut self, act: ActivityId, id: WorkspaceId, output: &Output)
        ensures
            final(self)@ == old(self)@.migrate(act, id, *output),
    {
        self.workspaces.unbind(id);
        self.workspaces.bind(id, output);
        if let Some(mut v) = self.copy_view(act, output.id) {
            let n: usize = v.len();
            if n > 0 {
                v.insert(n - 1, id);
                self.put_view(act, output.id, v);
            }
        }
    }

    /// Moves the workspaces `ids` over to `output`, into activity `act`'s view.
    fn migrate_all(&mut self, act: ActivityId, ids: &Vec<WorkspaceId>, output: &Output)
        ensures
            final(self)@ == old(self)@.migrate_all(act, ids@, *output),
    {
        let mut i: usize = 0;
        while i < ids.len()
            invariant
                i <= ids@.len(),
                self@ == old(self)@.migrate_all(act, ids@.take(i as int), *output),
            decreases ids@.len() - i,
        {
            assert(ids@.take(i + 1).drop_last() =~= ids@.take(i as int));
            self.migrate(act, ids[i], output);
            i = i + 1;
        }
        assert(ids@.take(i as int) =~= ids@);
    }

    /// For each activity, the workspaces with windows or a name that it shows on output `out`.
    fn movers(&self, out: OutputId) -> (r: Vec<(ActivityId, Vec<WorkspaceId>)>)
        ensures
            r@.len() == self@.acts.list.len(),
            forall|i: int|
                0 <= i < r@.len() ==> (#[trigger] r@[i]).0 == self@.acts.list[i].id && r@[i].1@
                    == movers(self@.pool, self@.acts.list[i], out),
    {
        let mut r: Vec<(ActivityId, Vec<WorkspaceId>)> = Vec::new();
        let mut i: usize = 0;
        while i < self.activities.list.len()
            invariant
                i <= self.activities.list@.len(),
                r@.len() == i,
                forall|j: int|
                    0 <= j < i ==> (#[trigger] r@[j]).0 == self@.acts.list[j].id && r@[j].1@
                        == movers(self@.pool, self@.acts.list[j], out),
            decreases self.activities.list@.len() - i,
        {
            assert(self@.acts.list[i as int] == self.activities.list@[i as int]@);
            let ids = match self.activities.list[i].view_on(out) {
                Some(v) => partition_busy(&self.workspaces, v.ids()).0,
                None => Vec::new(),
            };
            r.push((self.activities.list[i].id, ids));
            i = i + 1;
        }
        r
    }

    /// The last output is gone: parks what has windows or a name and destroys the rest.
    fn park_all(&mut self, shown: &Vec<WorkspaceId>, out: OutputId)
        ensures
            final(self)@ == old(self)@.park_all(shown@, out),
    {
        let mut all: Vec<WorkspaceId> = Vec::new();
        extend(&mut all, shown);
        let rest = self.residents(out);
        extend(&mut all, &rest);
        assert(all@ =~= shown@ + residents(self@.acts.list, out));
        let (busy, empty) = partition_busy(&self.workspaces, &all);
        let parked = first_occurrences(&busy);
        let doomed = first_occurrences(&empty);
        self.drop_views(out);
        self.workspaces.unbind_all(&parked);
        self.disconnected_workspace_ids = parked;
        self.primary_idx = 0;
        self.active_monitor_idx = 0;
        self.destroy_workspaces_cross_activity(&doomed);
    }

    /// One of several outputs is gone: moves what has windows or a name to the primary monitor and
    /// destroys the rest.
    fn fold_into_primary(&mut self, shown: &Vec<WorkspaceId>, out: OutputId)
        requires
            old(self)@.primary < old(self)@.monitors.len(),
            old(self)@.fold_into_primary(shown@, out).fits(),
        ensures
            final(self)@ == old(self)@.fold_into_primary(shown@, out),
    {
        let ghost start = self@;
        let primary: usize = self.primary_idx;
        let output = self.monitors[primary].output;
        let (kept, empty) = partition_busy(&self.workspaces, shown);
        let ghost s0 = LayoutModel { pool: self@.pool.unbind_all(kept@), ..self@ };
        let ghost s1 = s0.append(primary as int, kept@);
        let ghost doomed = firsts(
            empty@ + residents(s1.acts.list, out).filter(crate::outputs::idle(s1.pool)),
        );
        let ghost s2 = s1.drop_views(out);
        let ghost s3 = s2.migrate_from(s1.pool, s1.acts.list, out, output);
        let ghost s4 = s3.destroy_all(doomed);
        proof {
            lemma_append_leads(s0, primary as int, kept@);
            lemma_drop_views_leads(s1, out);
            lemma_migrate_from_leads(s2, s1.pool, s1.acts.list, out, output);
            crate::reclaim::lemma_destroy_all_leads(s3, doomed);
            crate::materialize::lemma_ensure_all_leads(s4);
            assert(start.fold_into_primary(shown@, out) == s4.ensure_all());
        }
        self.workspaces.unbind_all(&kept);
        self.append_workspaces_to_monitor(primary, &kept);
        let rest = self.residents(out);
        let (_busy, more) = partition_busy(&self.workspaces, &rest);
        let mut gone: Vec<WorkspaceId> = empty;
        extend(&mut gone, &more);
        let gone = first_occurrences(&gone);
        let visits = self.movers(out);
        self.drop_views(out);
        let mut i: usize = 0;
        while i < visits.len()
            invariant
                i <= visits@.len(),
                visits@.len() == s1.acts.list.len(),
                forall|j: int|
                    0 <= j < visits@.len() ==> (#[trigger] visits@[j]).0 == s1.acts.list[j].id
                        && visits@[j].1@ == movers(s1.pool, s1.acts.list[j], out),
                self@ == s2.migrate_from(s1.pool, s1.acts.list.take(i as int), out, output),
            decreases visits@.len() - i,
        {
            proof {
                assert(s1.acts.list.take(i + 1).drop_last() =~= s1.acts.list.take(i as int));
            }
            self.migrate_all(visits[i].0, &visits[i].1, &output);
            i = i + 1;
        }
        assert(s1.acts.list.take(i as int) =~= s1.acts.list);
        self.destroy_workspaces_cross_activity(&gone);
        self.ensure_all_activity_views();
    }

    /// Disconnects the monitor for output `output`.
    ///
    /// Its workspaces with windows or a name move to the primary monitor, or are parked if this
    /// was the last one; they keep the output as their routing hint. Empty ones that belong to one
    /// activity alone are destroyed.
    pub(crate) fn do_remove_output(&mut self, output: OutputId)
        requires
            old(self)@.monitor_pos(output) is Some,
            old(self)@.primary < old(self)@.monitors.len(),
            old(self)@.remove_output(old(self)@.monitor_pos(output).unwrap()).fits(),
        ensures
            final(self)@ == old(self)@.remove_output(old(self)@.monitor_pos(output).unwrap()),
    {
        let idx: usize = match self.monitor_idx(output) {
            Some(i) => i,
            None => {
                return;
            },
        };
        let act = self.activities.active;
        if let Some(v) = self.activities.drop_view(act, output) {
            let m = self.monitors.remove(idx);
            self.note(m.output.connector, v.active());
            if self.monitors.len() == 0 {
                self.park_all(v.ids(), output);
            } else {
                if self.primary_idx >= idx && self.primary_idx > 0 {
                    self.primary_idx = self.primary_idx - 1;
                }
                if self.active_monitor_idx >= idx && self.active_monitor_idx > 0 {
                    self.active_monitor_idx = self.active_monitor_idx - 1;
                }
                self.fold_into_primary(v.ids(), output);
            }
        } else {
            proof {
                crate::search::lemma_find_from(
                    old(self)@.acts.list,
                    crate::activity::named(act),
                    0,
                );
                if let Some(i) = old(self)@.acts.pos(act) {
                    assert(self@.acts.list =~= old(self)@.acts.list);
                }
            }
        }
    }
}

} // verus!
