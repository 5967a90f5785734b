//! Activities come and go without leaving a workspace outside every activity.

use vstd::prelude::*;

use crate::activity::{ActivitiesModel, ActivityModel};
use crate::coherence::{
    activity_ok, acts_ok, grows, lemma_act, lemma_act_pos, lemma_get, lemma_grow_views,
    lemma_pos_of, lemma_put_coherent, lemma_same_ids, member_ok, pool_ok, view_ok,
};
use crate::belonging::{lemma_collapse_all, lemma_filter_acts, lemma_unshow};
use crate::ids::{ActivityId, OutputId, WorkspaceId};
use crate::keeping::{law_normalize_adds_only, lemma_destroy, lemma_destroy_all};
use crate::keeping_views::{
    lemma_ensure_all, lemma_ids_of_filter, lemma_install_into, lemma_reclaim_all,
};
use crate::layout::LayoutModel;
use crate::materialize::ids_of;
use crate::pool::PoolModel;
use crate::promises::law_switching_disturbs_nothing;
use crate::reconcile::{all_missing, all_strays, missing_in, strayed, unseen, Missing, Stray};
use crate::search::{find, lemma_find_from};
use crate::switching::{in_activity, leave, other_than, owned_by};
use crate::workspace::Output;

verus! {

/// What is destroyed is gone unless it is shared.
pub proof fn lemma_destroy_all_gone(s: LayoutModel, ids: Seq<WorkspaceId>, x: WorkspaceId)
    requires
        s.coherent(),
        forall|i: int|
            0 <= i < ids.len() ==> s.pool.shared(#[trigger] ids[i]) || !s.parked.contains(ids[i]),
        ids.contains(x),
        !s.pool.shared(x),
    ensures
        !s.destroy_all(ids).pool.has(x),
    decreases ids.len(),
{
    let rest = ids.drop_last();
    let id = ids.last();
    assert forall|i: int| 0 <= i < rest.len() implies s.pool.shared(#[trigger] rest[i])
        || !s.parked.contains(rest[i]) by {
        assert(rest[i] == ids[i]);
    }
    lemma_destroy_all(s, rest);
    crate::reclaim::lemma_destroy_all_leads(s, rest);
    let t = s.destroy_all(rest);
    let u = s.destroy_all(ids);
    assert(id == ids[ids.len() - 1]);
    assert(s.pool.shared(id) ==> t.pool.get(id) == s.pool.get(id));
    lemma_destroy(t, id);
    if x == id {
        if t.pool.has(x) {
            assert(t.pool.get(x) == s.pool.get(x));
        }
    } else {
        let k = choose|k: int| 0 <= k < ids.len() && ids[k] == x;
        assert(rest[k] == x);
        lemma_destroy_all_gone(s, rest, x);
        if !t.pool.shared(id) {
            assert(u.pool.get(x) == t.pool.get(x));
        }
    }
}

/// Making another activity active keeps the layout coherent.
pub proof fn lemma_set_active(s: LayoutModel, target: ActivityId)
    requires
        s.coherent(),
        s.acts.has(target),
    ensures
        (LayoutModel { acts: s.acts.set_active(target), ..s }).coherent(),
{
    lemma_act(s.acts, target);
    let a = s.acts.get(target).unwrap();
    let base = ActivitiesModel {
        active: target,
        previous: Some(s.acts.active),
        seq: s.acts.seq + 1,
        ..s.acts
    };
    let r = LayoutModel { acts: base, ..s };
    assert(base.ids() =~= s.acts.ids());
    lemma_same_ids(s.acts, base);
    assert(r.coherent()) by {
        assert forall|i: int| 0 <= i < r.pool.items.len() implies member_ok(
            r.acts,
            #[trigger] r.pool.items[i],
        ) by {
            assert(member_ok(s.acts, s.pool.items[i]));
        }
    }
    let b = ActivityModel { last_active_seq: s.acts.seq + 1, ..a };
    assert(activity_ok(s.pool, s.acts.list[s.acts.pos(target).unwrap()]));
    assert(activity_ok(s.pool, b)) by {
        assert forall|j: int| 0 <= j < b.views.len() implies view_ok(
            s.pool,
            b.id,
            (#[trigger] b.views[j]).view,
        ) by {
            assert(view_ok(s.pool, a.id, a.views[j].view));
        }
    }
    lemma_put_coherent(r, target, b);
}

/// Switching activities keeps the layout coherent.
pub proof fn law_switching_keeps_coherence(s: LayoutModel, target: ActivityId)
    requires
        s.coherent(),
        s.switch_activity(target).fits(),
    ensures
        s.switch_activity(target).coherent(),
{
    if target != s.acts.active && s.acts.has(target) {
        lemma_set_active(s, target);
        let s1 = LayoutModel { acts: s.acts.set_active(target), ..s.settle_all() };
        assert(s1.coherent());
        assert(s1.ensure_all().fits());
        lemma_ensure_all(s1);
    }
}

/// Every workspace lists an activity once.
pub open spec fn lists_once(pool: PoolModel) -> bool {
    forall|i: int|
        0 <= i < pool.items.len() ==> (#[trigger] pool.items[i]).activities.no_duplicates()
}

/// An activity that no workspace belongs to alone leaves: the layout stays coherent.
pub proof fn lemma_leave(s: LayoutModel, target: ActivityId)
    requires
        s.coherent(),
        lists_once(s.pool),
        s.acts.has(target),
        s.acts.active != target,
        forall|i: int| 0 <= i < s.pool.items.len() ==> !owned_by(target)(#[trigger] s.pool.items[i]),
    ensures
        (LayoutModel {
            pool: s.pool.leave_all(target),
            acts: s.acts.remove(target),
            ..s
        }).coherent(),
        !s.acts.remove(target).has(target),
{
    let t = LayoutModel { pool: s.pool.leave_all(target), acts: s.acts.remove(target), ..s };
    let q = t.pool;
    lemma_act(s.acts, target);
    let k = s.acts.pos(target).unwrap();
    assert(t.acts.list == s.acts.list.remove(k));
    assert forall|i: int| 0 <= i < t.acts.list.len() implies #[trigger] t.acts.list[i]
        == s.acts.list[if i < k {
        i
    } else {
        i + 1
    }] by {}
    assert forall|a: ActivityId| a != target && s.acts.has(a) implies #[trigger] t.acts.has(a) by {
        lemma_act(s.acts, a);
        lemma_act(t.acts, a);
        let i = s.acts.pos(a).unwrap();
        if t.acts.pos(a) is None {
            assert(t.acts.list[if i < k {
                i
            } else {
                i - 1
            }].id == a);
        }
    }
    assert(!t.acts.has(target)) by {
        lemma_act(t.acts, target);
        if let Some(i) = t.acts.pos(target) {
            let j = if i < k {
                i
            } else {
                i + 1
            };
            assert(s.acts.list[j].id == target);
            if j < k {
                assert(s.acts.list[j].id != s.acts.list[k].id);
            } else {
                assert(s.acts.list[k].id != s.acts.list[j].id);
            }
        }
    }
    assert(acts_ok(t.acts)) by {
        assert forall|i: int, j: int| 0 <= i < j < t.acts.list.len() implies (
        #[trigger] t.acts.list[i]).id != (#[trigger] t.acts.list[j]).id by {
            let i2 = if i < k {
                i
            } else {
                i + 1
            };
            let j2 = if j < k {
                j
            } else {
                j + 1
            };
            assert(s.acts.list[i2].id != s.acts.list[j2].id);
        }
        assert forall|i: int| 0 <= i < t.acts.list.len() implies (#[trigger] t.acts.list[i]).id.0
            < t.acts.next by {
            assert(s.acts.list[if i < k {
                i
            } else {
                i + 1
            }].id.0 < s.acts.next);
        }
        assert(t.acts.has(s.acts.active));
    }
    assert forall|i: int| 0 <= i < q.items.len() implies member_ok(
        t.acts,
        #[trigger] q.items[i],
    ) by {
        let w = s.pool.items[i];
        assert(member_ok(s.acts, w));
        assert(!owned_by(target)(w));
        assert(w.activities.no_duplicates());
        let l = w.activities;
        lemma_filter_acts(l, other_than(target));
        let f = l.filter(other_than(target));
        assert(q.items[i].activities == f);
        assert(exists|j: int| 0 <= j < l.len() && l[j] != target) by {
            if l[0] == target {
                assert(l.contains(target));
                assert(l.len() > 1);
                assert(l[1] != l[0]);
            }
        }
        let j = choose|j: int| 0 <= j < l.len() && l[j] != target;
        assert(l.contains(l[j]));
        assert(f.contains(l[j]));
        assert forall|x: ActivityId| #[trigger] f.contains(x) implies t.acts.has(x) by {
            assert(l.contains(x));
            assert(s.acts.has(x));
        }
    }
    lemma_leave_pool(s.pool, target);
    assert forall|i: int| 0 <= i < t.acts.list.len() implies activity_ok(
        q,
        #[trigger] t.acts.list[i],
    ) by {
        let i2 = if i < k {
            i
        } else {
            i + 1
        };
        let a = s.acts.list[i2];
        assert(activity_ok(s.pool, a));
        assert(a.id != target) by {
            if i2 < k {
                assert(s.acts.list[i2].id != s.acts.list[k].id);
            } else {
                assert(s.acts.list[k].id != s.acts.list[i2].id);
            }
        }
        assert forall|j: int| 0 <= j < a.views.len() implies view_ok(
            q,
            a.id,
            (#[trigger] a.views[j]).view,
        ) by {
            assert(view_ok(s.pool, a.id, a.views[j].view));
            assert forall|x: WorkspaceId| #[trigger] a.views[j].view.ids.contains(
                x,
            ) implies q.member(x, a.id) by {
                assert(s.pool.member(x, a.id));
            }
        }
    }
    assert forall|i: int| 0 <= i < t.parked.len() implies q.has(#[trigger] t.parked[i]) by {
        assert(s.pool.has(s.parked[i]));
    }
}

/// What a pool holds once an activity left.
pub proof fn lemma_leave_pool(p: PoolModel, target: ActivityId)
    requires
        pool_ok(p),
    ensures
        pool_ok(p.leave_all(target)),
        forall|x: WorkspaceId| #[trigger] p.has(x) ==> p.leave_all(target).has(x),
        forall|x: WorkspaceId, a: ActivityId|
            a != target && #[trigger] p.member(x, a) ==> p.leave_all(target).member(x, a),
        forall|x: WorkspaceId| #[trigger]
            p.leave_all(target).get(x) == match p.get(x) {
                Some(w) => Some(leave(w, target)),
                None => None,
            },
{
    let q = p.leave_all(target);
    assert(q.wf()) by {
        assert forall|i: int, j: int| 0 <= i < j < q.items.len() implies (
        #[trigger] q.items[i]).id.0 < (#[trigger] q.items[j]).id.0 by {
            assert(p.items[i].id.0 < p.items[j].id.0);
        }
        assert forall|i: int| 0 <= i < q.items.len() implies (#[trigger] q.items[i]).id.0
            < q.next by {
            assert(p.items[i].id.0 < p.next);
        }
    }
    assert forall|x: WorkspaceId| #[trigger] q.get(x) == match p.get(x) {
        Some(w) => Some(leave(w, target)),
        None => None,
    } by {
        lemma_get(p, x);
        lemma_get(q, x);
        if let Some(i) = p.pos(x) {
            assert(q.items[i].id == x);
            lemma_pos_of(q, i);
        } else if let Some(i) = q.pos(x) {
            assert(p.items[i].id == x);
        }
    }
    assert forall|x: WorkspaceId| #[trigger] p.has(x) implies q.has(x) by {
        assert(q.get(x) is Some);
    }
    assert forall|x: WorkspaceId, a: ActivityId|
        a != target && #[trigger] p.member(x, a) implies q.member(x, a) by {
        let l = p.get(x).unwrap().activities;
        lemma_filter_acts(l, other_than(target));
        assert(q.get(x) == Some(leave(p.get(x).unwrap(), target)));
    }
}

impl LayoutModel {
    /// The layout once activity `target`, if it is active, gave way to another.
    pub open spec fn yielded(self, target: ActivityId) -> LayoutModel {
        if target == self.acts.active {
            match self.successor(target) {
                Some(next) => self.switch_activity(next),
                None => self,
            }
        } else {
            self
        }
    }

    /// The workspaces that belong to activity `target` alone.
    pub open spec fn own_of(self, target: ActivityId) -> Seq<WorkspaceId> {
        ids_of(self.pool.items.filter(owned_by(target)))
    }

    /// The layout once activity `target` left, with its views and what belonged to it alone.
    pub open spec fn departed(self, target: ActivityId) -> LayoutModel {
        let s = self.yielded(target).destroy_all(self.own_of(target));
        LayoutModel { pool: s.pool.leave_all(target), acts: s.acts.remove(target), ..s }
    }

    /// The workspaces that activity `target` shared.
    pub open spec fn narrowed_by(self, target: ActivityId) -> Seq<WorkspaceId> {
        let s = self.yielded(target).destroy_all(self.own_of(target));
        ids_of(s.pool.items.filter(in_activity(target)))
    }
}

/// The activity before the active one is another one that exists.
pub open spec fn previous_ok(acts: ActivitiesModel) -> bool {
    match acts.previous {
        Some(p) => acts.has(p) && p != acts.active,
        None => true,
    }
}

/// An activity that has to go gives way to another.
pub proof fn lemma_yielded(s: LayoutModel, target: ActivityId)
    requires
        s.coherent(),
        s.complete(),
        previous_ok(s.acts),
        s.acts.has(target),
        s.acts.list.len() > 1,
        s.yielded(target).fits(),
    ensures
        s.yielded(target).coherent(),
        s.yielded(target).pool == s.pool,
        s.yielded(target).acts.ids() == s.acts.ids(),
        s.yielded(target).acts.active != target,
{
    if target == s.acts.active {
        let ids = s.acts.ids();
        lemma_find_from(ids, other_than(target), 0);
        lemma_act(s.acts, target);
        let k = s.acts.pos(target).unwrap();
        let other = if k == 0 {
            1int
        } else {
            0
        };
        if k == 0 {
            assert(s.acts.list[0].id != s.acts.list[1].id);
        } else {
            assert(s.acts.list[0].id != s.acts.list[k].id);
        }
        assert(other_than(target)(ids[other]));
        let next = s.successor(target).unwrap();
        assert(s.acts.has(next) && next != target) by {
            if s.acts.previous is None {
                let i = find(ids, other_than(target)).unwrap();
                assert(other_than(target)(ids[i]));
                lemma_act_pos(s.acts, i);
            }
        }
        law_switching_disturbs_nothing(s, next);
        law_switching_keeps_coherence(s, next);
    }
}

/// What is left once an activity departed.
pub proof fn lemma_departed(s: LayoutModel, target: ActivityId)
    requires
        s.coherent(),
        s.complete(),
        previous_ok(s.acts),
        lists_once(s.pool),
        s.monitors.len() > 0,
        s.acts.has(target),
        s.acts.list.len() > 1,
        s.yielded(target).fits(),
    ensures
        s.departed(target).coherent(),
        !s.departed(target).acts.has(target),
{
    lemma_yielded(s, target);
    let s1 = s.yielded(target);
    let own = s.own_of(target);
    let n = s.pool.items.len() as int;
    assert(s.pool.items.take(n) =~= s.pool.items);
    lemma_ids_of_filter(s.pool, owned_by(target), n);
    assert(s1.parked.len() == 0) by {
        crate::switching::lemma_switch_activity_before(s, match s.successor(target) {
            Some(next) => next,
            None => target,
        });
    }
    assert forall|i: int| 0 <= i < own.len() implies s1.pool.shared(#[trigger] own[i])
        || !s1.parked.contains(own[i]) by {}
    lemma_destroy_all(s1, own);
    crate::reclaim::lemma_destroy_all_leads(s1, own);
    let s2 = s1.destroy_all(own);
    lemma_same_ids(s.acts, s1.acts);
    lemma_same_ids(s1.acts, s2.acts);
    assert forall|i: int| 0 <= i < s2.pool.items.len() implies !owned_by(target)(
        #[trigger] s2.pool.items[i],
    ) && s2.pool.items[i].activities.no_duplicates() by {
        lemma_pos_of(s2.pool, i);
        let x = s2.pool.items[i].id;
        assert(s2.pool.has(x));
        assert(s2.pool.get(x) == s.pool.get(x));
        lemma_get(s.pool, x);
        let j = s.pool.pos(x).unwrap();
        assert(s.pool.items[j].activities.no_duplicates());
        if owned_by(target)(s.pool.items[j]) {
            assert(own.contains(x));
            assert(!s.pool.shared(x));
            lemma_destroy_all_gone(s1, own, x);
        }
    }
    lemma_leave(s2, target);
}

/// Removing an activity leaves no workspace outside every activity, and none in one that is gone.
pub proof fn law_removing_an_activity_keeps_coherence(s: LayoutModel, target: ActivityId)
    requires
        s.coherent(),
        s.complete(),
        previous_ok(s.acts),
        lists_once(s.pool),
        s.monitors.len() > 0,
        s.acts.has(target),
        s.remove_error(target) is None,
        s.remove_activity(target, s.own_of(target)).fits(),
    ensures
        s.remove_activity(target, s.own_of(target)).coherent(),
        !s.remove_activity(target, s.own_of(target)).acts.has(target),
{
    let own = s.own_of(target);
    let t = s.remove_activity(target, own);
    let s1 = s.yielded(target);
    let s3 = s.departed(target);
    let s4 = s3.disarm_stale();
    let s5 = s4.ensure_all();
    let narrowed = s.narrowed_by(target);
    assert(t == s5.reclaim_all(narrowed));
    crate::reclaim::lemma_destroy_all_leads(s1, own);
    crate::materialize::lemma_ensure_rows_leads(s4, 0, s4.acts.list.len() as int);
    crate::reclaim::lemma_reclaim_all_leads(s5, narrowed);
    lemma_act(s.acts, target);
    assert(s.acts.list.len() > 1);
    lemma_departed(s, target);
    assert(s1.monitors.len() == s.monitors.len()) by {
        crate::switching::lemma_switch_activity_before(s, match s.successor(target) {
            Some(next) => next,
            None => target,
        });
    }
    assert(s4.coherent());
    lemma_ensure_all(s4);
    lemma_reclaim_all(s5, narrowed);
    lemma_same_ids(s4.acts, s5.acts);
    lemma_same_ids(s5.acts, t.acts);
}

/// What the activities have to show belongs to them.
pub proof fn lemma_missing(s: LayoutModel, n: int)
    requires
        pool_ok(s.pool),
        0 <= n <= s.acts.list.len(),
    ensures
        forall|i: int|
            0 <= i < all_missing(s.pool, s.acts.list.take(n), s.parked).len() ==> s.pool.member(
                (#[trigger] all_missing(s.pool, s.acts.list.take(n), s.parked)[i]).id,
                all_missing(s.pool, s.acts.list.take(n), s.parked)[i].act,
            ),
    decreases n,
{
    let all = all_missing(s.pool, s.acts.list.take(n), s.parked);
    if n > 0 {
        lemma_missing(s, n - 1);
        assert(s.acts.list.take(n).drop_last() =~= s.acts.list.take(n - 1));
        let a = s.acts.list[n - 1];
        assert(s.acts.list.take(n).last() == a);
        let before = all_missing(s.pool, s.acts.list.take(n - 1), s.parked);
        let here = missing_in(s.pool, a, s.parked);
        assert(all == before + here);
        let f = unseen(a, s.parked);
        let k = s.pool.items.len() as int;
        assert(s.pool.items.take(k) =~= s.pool.items);
        lemma_ids_of_filter(s.pool, f, k);
        let ids = ids_of(s.pool.items.filter(f));
        assert forall|i: int| 0 <= i < all.len() implies s.pool.member(
            (#[trigger] all[i]).id,
            all[i].act,
        ) by {
            if i < before.len() {
                assert(all[i] == before[i]);
            } else {
                let j = i - before.len();
                assert(all[i] == here[j]);
                assert(ids.contains(ids[j]));
                let m = choose|m: int|
                    0 <= m < k && f(#[trigger] s.pool.items[m]) && s.pool.items[m].id == ids[j];
                lemma_pos_of(s.pool, m);
            }
        }
    } else {
        assert(s.acts.list.take(n) =~= Seq::<ActivityModel>::empty());
    }
}

/// Showing what belongs to activities keeps the layout coherent.
pub proof fn lemma_show_all(s: LayoutModel, work: Seq<Missing>)
    requires
        s.coherent(),
        forall|i: int|
            0 <= i < work.len() ==> s.pool.member((#[trigger] work[i]).id, work[i].act),
    ensures
        s.show_all(work).coherent(),
    decreases work.len(),
{
    if work.len() > 0 {
        let rest = work.drop_last();
        assert forall|i: int| 0 <= i < rest.len() implies s.pool.member(
            (#[trigger] rest[i]).id,
            rest[i].act,
        ) by {
            assert(rest[i] == work[i]);
        }
        lemma_show_all(s, rest);
        crate::reconcile::lemma_show_all_leads(s, rest);
        let t = s.show_all(rest);
        let w = work.last();
        assert(s.pool.member(work[work.len() - 1].id, work[work.len() - 1].act));
        if let Some(out) = t.holding_output(w.id) {
            lemma_install_into(t, w.act, out, w.id);
        }
    }
}

/// Taking workspaces out of views keeps the layout coherent.
pub proof fn lemma_unshow_all(s: LayoutModel, work: Seq<Stray>)
    requires
        s.coherent(),
    ensures
        s.unshow_all(work).coherent(),
    decreases work.len(),
{
    if work.len() > 0 {
        lemma_unshow_all(s, work.drop_last());
        lemma_unshow(s.unshow_all(work.drop_last()), work.last());
    }
}

impl LayoutModel {
    /// Whether reconciling changes what the active activity shows.
    pub open spec fn unsettles(self) -> bool {
        let wanted = all_missing(self.pool, self.acts.list, self.parked);
        let unwanted = all_strays(self.pool, self.acts.list);
        (exists|i: int|
            0 <= i < wanted.len() && (#[trigger] wanted[i]).act == self.acts.active) || (exists|
            i: int,
        | 0 <= i < unwanted.len() && (#[trigger] unwanted[i]).act == self.acts.active)
    }

    /// The layout with nothing moving on the screen if what it shows is about to change.
    pub open spec fn stilled(self) -> LayoutModel {
        if self.unsettles() {
            self.snap_all()
        } else {
            self
        }
    }

    /// The layout once every activity shows what it has.
    pub open spec fn supplied(self) -> LayoutModel {
        self.stilled().show_all(all_missing(self.pool, self.acts.list, self.parked))
    }

    /// The layout once every activity shows nothing else.
    pub open spec fn weeded(self) -> LayoutModel {
        self.supplied().unshow_all(all_strays(self.pool, self.acts.list))
    }
}

/// Reconciling views with membership keeps the layout coherent once they agree.
pub proof fn lemma_reconciled(s: LayoutModel)
    requires
        s.monitors.len() > 0,
        s.weeded().coherent(),
        s.reconcile().fits(),
    ensures
        s.reconcile().coherent(),
{
    let o = Output { id: OutputId(0), connector: OutputId(0) };
    let wanted = all_missing(s.pool, s.acts.list, s.parked);
    let unwanted = all_strays(s.pool, s.acts.list);
    let s1 = s.stilled();
    let s2 = s.supplied();
    let u = s.weeded();
    crate::reconcile::lemma_show_all_leads(s1, wanted);
    crate::reconcile::lemma_unshow_all_leads(s2, unwanted);
    let done = s2.taken(unwanted);
    lemma_collapse_all(u, done, o);
    crate::reconcile::lemma_collapse_all_leads(u, done);
    let s3 = u.collapse_all(done);
    let s4 = if s2.drops_view(unwanted) {
        s3.ensure_all()
    } else {
        s3
    };
    crate::materialize::lemma_ensure_rows_leads(s3, 0, s3.acts.list.len() as int);
    let s5 = if s1.shows_any_busy(wanted) {
        s4.normalize()
    } else {
        s4
    };
    crate::bookends::lemma_normalize_leads(s4);
    let ids = ids_of(s5.pool.items.filter(strayed(done)));
    crate::reclaim::lemma_reclaim_all_leads(s5, ids);
    assert(s.reconcile() == s5.reclaim_all(ids));
    if s2.drops_view(unwanted) {
        lemma_ensure_all(s3);
    }
    if s1.shows_any_busy(wanted) {
        law_normalize_adds_only(s4);
    }
    lemma_reclaim_all(s5, ids);
}

/// Reconciling views with membership keeps the layout coherent.
pub proof fn law_reconciling_keeps_coherence(s: LayoutModel)
    requires
        s.coherent(),
        s.reconcile().fits(),
    ensures
        s.reconcile().coherent(),
{
    if s.monitors.len() > 0 {
        let n = s.acts.list.len() as int;
        assert(s.acts.list.take(n) =~= s.acts.list);
        assert(s.stilled().coherent());
        lemma_missing(s, n);
        lemma_show_all(s.stilled(), all_missing(s.pool, s.acts.list, s.parked));
        lemma_unshow_all(s.supplied(), all_strays(s.pool, s.acts.list));
        lemma_reconciled(s);
    }
}

impl LayoutModel {
    /// The layout with a new activity called `name`, before it has views.
    pub open spec fn extended(self, name: Seq<char>) -> LayoutModel {
        let id = ActivityId(self.acts.next as u64);
        LayoutModel {
            acts: ActivitiesModel {
                list: self.acts.list.push(
                    ActivityModel {
                        id,
                        name,
                        declared: false,
                        last_active_seq: 0,
                        views: Seq::empty(),
                    },
                ),
                next: self.acts.next + 1,
                ..self.acts
            },
            pool: self.pool.stick_all(id),
            ..self
        }
    }
}

/// A new activity that sticky workspaces belong to leaves the layout coherent.
pub proof fn lemma_extended(s: LayoutModel, name: Seq<char>)
    requires
        s.coherent(),
        s.acts.next < u64::MAX,
    ensures
        s.extended(name).coherent(),
        s.extended(name).acts.has(ActivityId(s.acts.next as u64)),
        forall|i: int|
            0 <= i < s.pool.items.len() && (#[trigger] s.pool.items[i]).sticky ==> s.extended(
                name,
            ).pool.member(s.pool.items[i].id, ActivityId(s.acts.next as u64)),
{
    let id = ActivityId(s.acts.next as u64);
    let t = s.extended(name);
    let q = t.pool;
    let n = s.acts.list.len() as int;
    assert forall|i: int| 0 <= i < n implies #[trigger] t.acts.list[i] == s.acts.list[i] by {}
    assert(t.acts.list[n].id == id);
    assert forall|a: ActivityId| #[trigger] s.acts.has(a) implies t.acts.has(a) by {
        lemma_act(s.acts, a);
        lemma_act(t.acts, a);
        assert(t.acts.list[s.acts.pos(a).unwrap()].id == a);
    }
    assert(t.acts.has(id)) by {
        lemma_act(t.acts, id);
    }
    assert(acts_ok(t.acts)) by {
        assert forall|i: int, j: int| 0 <= i < j < t.acts.list.len() implies (
        #[trigger] t.acts.list[i]).id != (#[trigger] t.acts.list[j]).id by {
            assert(t.acts.list[i] == s.acts.list[i]);
            if j < n {
                assert(s.acts.list[i].id != s.acts.list[j].id);
            } else {
                assert(s.acts.list[i].id.0 < s.acts.next);
            }
        }
        assert forall|i: int| 0 <= i < t.acts.list.len() implies (#[trigger] t.acts.list[i]).id.0
            < t.acts.next by {
            if i < n {
                assert(s.acts.list[i].id.0 < s.acts.next);
            }
        }
    }
    assert forall|i: int| 0 <= i < q.items.len() implies (#[trigger] q.items[i]).id
        == s.pool.items[i].id && forall|a: ActivityId| #[trigger]
        s.pool.items[i].activities.contains(a) ==> q.items[i].activities.contains(a) by {
        let l = s.pool.items[i].activities;
        assert forall|a: ActivityId| #[trigger] l.contains(a) implies q.items[i].activities.contains(
            a,
        ) by {
            let k = choose|k: int| 0 <= k < l.len() && l[k] == a;
            assert(q.items[i].activities[k] == a);
        }
    }
    assert(q.wf()) by {
        assert forall|i: int, j: int| 0 <= i < j < q.items.len() implies (
        #[trigger] q.items[i]).id.0 < (#[trigger] q.items[j]).id.0 by {
            assert(s.pool.items[i].id.0 < s.pool.items[j].id.0);
        }
        assert forall|i: int| 0 <= i < q.items.len() implies (#[trigger] q.items[i]).id.0
            < q.next by {
            assert(s.pool.items[i].id.0 < s.pool.next);
        }
    }
    assert(grows(s.pool, q)) by {
        assert forall|x: WorkspaceId, a: ActivityId| #[trigger] s.pool.member(x, a) implies q.member(
            x,
            a,
        ) by {
            lemma_get(s.pool, x);
            let i = s.pool.pos(x).unwrap();
            assert(q.items[i].id == x);
            lemma_pos_of(q, i);
        }
        assert forall|x: WorkspaceId| #[trigger] s.pool.has(x) implies q.has(x) by {
            lemma_get(s.pool, x);
            let i = s.pool.pos(x).unwrap();
            assert(q.items[i].id == x);
            lemma_pos_of(q, i);
        }
    }
    assert forall|i: int| 0 <= i < q.items.len() implies member_ok(
        t.acts,
        #[trigger] q.items[i],
    ) by {
        let w = s.pool.items[i];
        assert(member_ok(s.acts, w));
        let l = q.items[i].activities;
        assert forall|a: ActivityId| #[trigger] l.contains(a) implies t.acts.has(a) by {
            let k = choose|k: int| 0 <= k < l.len() && l[k] == a;
            if k < w.activities.len() {
                assert(w.activities[k] == a);
                assert(w.activities.contains(a));
                assert(s.acts.has(a));
            }
        }
    }
    lemma_grow_views(s.pool, q, s.acts.list);
    assert forall|i: int| 0 <= i < t.acts.list.len() implies activity_ok(
        q,
        #[trigger] t.acts.list[i],
    ) by {
        if i < n {
            assert(activity_ok(q, s.acts.list[i]));
        }
    }
    assert forall|i: int| 0 <= i < t.parked.len() implies q.has(#[trigger] t.parked[i]) by {
        assert(s.pool.has(s.parked[i]));
    }
    assert forall|i: int| 0 <= i < s.pool.items.len() && (
    #[trigger] s.pool.items[i]).sticky implies q.member(s.pool.items[i].id, id) by {
        assert(q.items[i].id == s.pool.items[i].id);
        lemma_pos_of(q, i);
        let l = q.items[i].activities;
        if !s.pool.items[i].activities.contains(id) {
            assert(l[s.pool.items[i].activities.len() as int] == id);
        } else {
            assert(l.contains(id));
        }
    }
}

/// Creating an activity keeps the layout coherent: sticky workspaces belong to it from the start.
pub proof fn law_creating_an_activity_keeps_coherence(s: LayoutModel, name: Seq<char>)
    requires
        s.coherent(),
        s.create_activity(name).fits(),
    ensures
        s.create_activity(name).coherent(),
        s.create_activity(name).acts.has(ActivityId(s.acts.next as u64)),
{
    let t = s.extended(name);
    let e = t.ensure_all();
    assert(s.create_activity(name) == e.reconcile());
    crate::reconcile::lemma_reconcile_leads(e);
    crate::materialize::lemma_ensure_rows_leads(t, 0, t.acts.list.len() as int);
    lemma_extended(s, name);
    lemma_ensure_all(t);
    law_reconciling_keeps_coherence(e);
    lemma_same_ids(t.acts, e.acts);
    lemma_same_ids(e.acts, e.reconcile().acts);
}

} // verus!
