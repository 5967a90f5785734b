//! The pool, the activities and their views fit together, and every operation keeps it so.

use vstd::prelude::*;

use crate::activity::{keyed, named, ActivitiesModel, ActivityModel};
use crate::ids::{ActivityId, OutputId, WorkspaceId};
use crate::layout::LayoutModel;
use crate::pool::{has_id, PoolModel};
use crate::search::{lemma_find_from, lemma_find_map};
use crate::view::ViewModel;
use crate::workspace::WorkspaceModel;

verus! {

/// View `v` is usable and shows only workspaces of activity `act`.
pub open spec fn view_ok(pool: PoolModel, act: ActivityId, v: ViewModel) -> bool {
    v.wf() && forall|x: WorkspaceId| #[trigger] v.ids.contains(x) ==> pool.member(x, act)
}

/// Every view of activity `a` is in order, and there is at most one of each output.
pub open spec fn activity_ok(pool: PoolModel, a: ActivityModel) -> bool {
    &&& forall|j: int|
        0 <= j < a.views.len() ==> view_ok(pool, a.id, (#[trigger] a.views[j]).view)
    &&& forall|i: int, j: int|
        0 <= i < j < a.views.len() ==> (#[trigger] a.views[i]).output != (
        #[trigger] a.views[j]).output
}

/// Every view of every activity is in order.
pub open spec fn views_ok(pool: PoolModel, list: Seq<ActivityModel>) -> bool {
    forall|i: int| 0 <= i < list.len() ==> activity_ok(pool, #[trigger] list[i])
}

/// No activity occurs twice, all their ids are spent, and the active one is there.
pub open spec fn acts_ok(acts: ActivitiesModel) -> bool {
    &&& 0 <= acts.next
    &&& forall|i: int, j: int|
        0 <= i < j < acts.list.len() ==> (#[trigger] acts.list[i]).id != (
        #[trigger] acts.list[j]).id
    &&& forall|i: int| 0 <= i < acts.list.len() ==> (#[trigger] acts.list[i]).id.0 < acts.next
    &&& acts.has(acts.active)
}

/// Workspace `w` belongs to some activity, and to none that is gone.
pub open spec fn member_ok(acts: ActivitiesModel, w: WorkspaceModel) -> bool {
    w.activities.len() > 0 && forall|x: ActivityId| #[trigger]
        w.activities.contains(x) ==> acts.has(x)
}

/// Every workspace belongs to some activity, and to none that is gone.
pub open spec fn members_ok(pool: PoolModel, acts: ActivitiesModel) -> bool {
    forall|i: int| 0 <= i < pool.items.len() ==> member_ok(acts, #[trigger] pool.items[i])
}

/// The pool is in order.
pub open spec fn pool_ok(pool: PoolModel) -> bool {
    pool.wf() && 0 <= pool.next
}

impl LayoutModel {
    /// The pool, the activities and their views fit together: a view shows only workspaces that
    /// exist and belong to its activity, and a workspace belongs only to activities that exist. What
    /// waits for an output exists too, and nothing waits while one is connected.
    pub open spec fn coherent(self) -> bool {
        &&& pool_ok(self.pool)
        &&& acts_ok(self.acts)
        &&& views_ok(self.pool, self.acts.list)
        &&& members_ok(self.pool, self.acts)
        &&& forall|i: int| 0 <= i < self.parked.len() ==> self.pool.has(#[trigger] self.parked[i])
        &&& self.monitors.len() > 0 ==> self.parked.len() == 0
    }
}

/// Whatever belongs to an activity in `p` does so in `q`.
pub open spec fn grows(p: PoolModel, q: PoolModel) -> bool {
    &&& forall|x: WorkspaceId, a: ActivityId| #[trigger] p.member(x, a) ==> q.member(x, a)
    &&& forall|x: WorkspaceId| #[trigger] p.has(x) ==> q.has(x)
}

/// `p` and `q` hold the same workspaces with the same activities.
pub open spec fn alike(p: PoolModel, q: PoolModel) -> bool {
    &&& p.next == q.next
    &&& p.items.len() == q.items.len()
    &&& forall|i: int|
        0 <= i < p.items.len() ==> (#[trigger] p.items[i]).id == q.items[i].id
            && p.items[i].activities == q.items[i].activities
}

/// A workspace is found where it is.
pub proof fn lemma_pos_of(p: PoolModel, i: int)
    requires
        p.wf(),
        0 <= i < p.items.len(),
    ensures
        p.pos(p.items[i].id) == Some(i),
{
    lemma_find_from(p.items, has_id(p.items[i].id), 0);
}

/// What is found is there and has the id that was sought.
pub proof fn lemma_get(p: PoolModel, id: WorkspaceId)
    ensures
        match p.pos(id) {
            Some(i) => 0 <= i < p.items.len() && p.items[i].id == id,
            None => forall|i: int| 0 <= i < p.items.len() ==> (#[trigger] p.items[i]).id != id,
        },
{
    lemma_find_from(p.items, has_id(id), 0);
}

/// Pools with the same workspaces and activities answer alike.
pub proof fn lemma_alike(p: PoolModel, q: PoolModel)
    requires
        alike(p, q),
    ensures
        p.wf() ==> q.wf(),
        grows(p, q),
        forall|x: WorkspaceId| #[trigger] q.pos(x) == p.pos(x),
        forall|x: WorkspaceId| #[trigger] q.shared(x) == p.shared(x),
        forall|x: WorkspaceId| #[trigger] q.exclusive(x) == p.exclusive(x),
        forall|x: WorkspaceId, a: ActivityId| #[trigger] q.member(x, a) == p.member(x, a),
{
    assert forall|x: WorkspaceId| #[trigger] q.pos(x) == p.pos(x) by {
        lemma_find_map(q.items, p.items, has_id(x), has_id(x));
        lemma_get(p, x);
    }
    assert forall|x: WorkspaceId, a: ActivityId| #[trigger] q.member(x, a) == p.member(x, a) by {
        assert(q.pos(x) == p.pos(x));
        lemma_get(p, x);
    }
    assert forall|x: WorkspaceId| #[trigger] q.shared(x) == p.shared(x) by {
        assert(q.pos(x) == p.pos(x));
        lemma_get(p, x);
    }
    assert forall|x: WorkspaceId| #[trigger] q.exclusive(x) == p.exclusive(x) by {
        assert(q.pos(x) == p.pos(x));
        lemma_get(p, x);
    }
    assert forall|x: WorkspaceId| #[trigger] p.has(x) implies q.has(x) by {
        assert(q.pos(x) == p.pos(x));
    }
    if p.wf() {
        assert forall|i: int, j: int| 0 <= i < j < q.items.len() implies (
        #[trigger] q.items[i]).id.0 < (#[trigger] q.items[j]).id.0 by {
            assert(p.items[i].id == q.items[i].id);
            assert(p.items[j].id == q.items[j].id);
        }
        assert forall|i: int| 0 <= i < q.items.len() implies (#[trigger] q.items[i]).id.0
            < q.next by {
            assert(p.items[i].id == q.items[i].id);
        }
    }
}

/// Replacing a workspace by one with the same id and activities leaves a pool that is alike.
pub proof fn lemma_put_alike(p: PoolModel, id: WorkspaceId, w: WorkspaceModel)
    requires
        match p.get(id) {
            Some(old) => w.id == old.id && w.activities == old.activities,
            None => true,
        },
    ensures
        alike(p, p.put(id, w)),
{
    lemma_get(p, id);
}

/// What a pool holds after one workspace was replaced.
pub proof fn lemma_get_put(p: PoolModel, id: WorkspaceId, w: WorkspaceModel)
    requires
        p.has(id) ==> w.id == id,
    ensures
        p.has(id) ==> p.put(id, w).get(id) == Some(w),
        forall|x: WorkspaceId| x != id ==> #[trigger] p.put(id, w).get(x) == p.get(x),
        forall|x: WorkspaceId| #[trigger] p.put(id, w).pos(x) == p.pos(x),
{
    lemma_get(p, id);
    let q = p.put(id, w);
    assert forall|x: WorkspaceId| #[trigger] q.pos(x) == p.pos(x) by {
        lemma_find_map(q.items, p.items, has_id(x), has_id(x));
    }
    assert forall|x: WorkspaceId| x != id implies #[trigger] q.get(x) == p.get(x) by {
        assert(q.pos(x) == p.pos(x));
        lemma_get(p, x);
    }
    if p.has(id) {
        assert(q.pos(id) == p.pos(id));
    }
}

/// What a pool holds after a new workspace came in.
pub proof fn lemma_push(p: PoolModel, w: WorkspaceModel)
    requires
        pool_ok(p),
        p.next < u64::MAX,
        w.id == p.next_id(),
    ensures
        ({
            let q = PoolModel { items: p.items.push(w), next: p.next + 1 };
            &&& pool_ok(q)
            &&& grows(p, q)
            &&& !p.has(w.id)
            &&& q.get(w.id) == Some(w)
            &&& forall|x: WorkspaceId| x != w.id ==> #[trigger] q.get(x) == p.get(x)
        }),
{
    let q = PoolModel { items: p.items.push(w), next: p.next + 1 };
    lemma_get(p, w.id);
    lemma_get(q, w.id);
    assert(q.items[p.items.len() as int] == w);
    assert forall|x: WorkspaceId| x != w.id implies #[trigger] q.get(x) == p.get(x) by {
        lemma_get(p, x);
        lemma_get(q, x);
        if let Some(i) = p.pos(x) {
            assert(q.items[i] == p.items[i]);
            if let Some(j) = q.pos(x) {
                assert(q.items[j] == p.items[j]);
                if i < j {
                    assert(p.items[i].id.0 < p.items[j].id.0);
                } else if j < i {
                    assert(p.items[j].id.0 < p.items[i].id.0);
                }
            }
        } else if let Some(j) = q.pos(x) {
            assert(q.items[j] == p.items[j]);
        }
    }
    assert forall|x: WorkspaceId, a: ActivityId| #[trigger] p.member(x, a) implies q.member(
        x,
        a,
    ) by {
        assert(x != w.id);
        assert(q.get(x) == p.get(x));
    }
    assert forall|x: WorkspaceId| #[trigger] p.has(x) implies q.has(x) by {
        assert(x != w.id);
        assert(q.get(x) == p.get(x));
    }
    assert(q.wf()) by {
        assert forall|i: int, j: int| 0 <= i < j < q.items.len() implies (
        #[trigger] q.items[i]).id.0 < (#[trigger] q.items[j]).id.0 by {
            assert(q.items[i] == p.items[i]);
            if j < p.items.len() {
                assert(q.items[j] == p.items[j]);
            }
        }
        assert forall|i: int| 0 <= i < q.items.len() implies (#[trigger] q.items[i]).id.0
            < q.next by {
            if i < p.items.len() {
                assert(q.items[i] == p.items[i]);
            }
        }
    }
    assert(q.get(w.id) == Some(w)) by {
        if let Some(j) = q.pos(w.id) {
            if j < p.items.len() {
                assert(q.items[j] == p.items[j]);
            }
        }
    }
}

/// What a pool holds after a workspace was taken out.
pub proof fn lemma_get_remove(p: PoolModel, id: WorkspaceId)
    requires
        p.wf(),
    ensures
        p.remove(id).wf(),
        !p.remove(id).has(id),
        forall|x: WorkspaceId| x != id ==> #[trigger] p.remove(id).get(x) == p.get(x),
{
    let q = p.remove(id);
    lemma_get(p, id);
    lemma_get(q, id);
    if let Some(k) = p.pos(id) {
        assert forall|i: int| 0 <= i < q.items.len() implies #[trigger] q.items[i]
            == p.items[if i < k {
            i
        } else {
            i + 1
        }] by {}
        if let Some(j) = q.pos(id) {
            let i = if j < k {
                j
            } else {
                j + 1
            };
            assert(q.items[j] == p.items[i]);
            if i < k {
                assert(p.items[i].id.0 < p.items[k].id.0);
            } else {
                assert(p.items[k].id.0 < p.items[i].id.0);
            }
        }
        assert(q.wf());
        assert forall|x: WorkspaceId| x != id implies #[trigger] q.get(x) == p.get(x) by {
            lemma_get(p, x);
            lemma_get(q, x);
            if let Some(i) = p.pos(x) {
                let i2 = if i < k {
                    i
                } else {
                    i - 1
                };
                assert(q.items[i2] == p.items[i]);
                lemma_pos_of(q, i2);
            } else if let Some(j) = q.pos(x) {
                assert(q.items[j] == p.items[if j < k {
                    j
                } else {
                    j + 1
                }]);
            }
        }
    }
}

/// An activity is found where it is.
pub proof fn lemma_act_pos(acts: ActivitiesModel, i: int)
    requires
        acts_ok(acts),
        0 <= i < acts.list.len(),
    ensures
        acts.pos(acts.list[i].id) == Some(i),
{
    lemma_find_from(acts.list, named(acts.list[i].id), 0);
}

/// What is found is there and has the id that was sought.
pub proof fn lemma_act(acts: ActivitiesModel, id: ActivityId)
    ensures
        match acts.pos(id) {
            Some(i) => 0 <= i < acts.list.len() && acts.list[i].id == id,
            None => forall|i: int| 0 <= i < acts.list.len() ==> (#[trigger] acts.list[i]).id != id,
        },
{
    lemma_find_from(acts.list, named(id), 0);
}

/// The same activities in the same order are found alike.
pub proof fn lemma_same_ids(a: ActivitiesModel, b: ActivitiesModel)
    requires
        a.ids() == b.ids(),
    ensures
        forall|x: ActivityId| #[trigger] a.has(x) == b.has(x),
        forall|x: ActivityId| #[trigger] a.pos(x) == b.pos(x),
{
    assert(a.list.len() == a.ids().len());
    assert(b.list.len() == b.ids().len());
    assert forall|i: int| 0 <= i < a.list.len() implies (#[trigger] a.list[i]).id
        == b.list[i].id by {
        assert(a.ids()[i] == a.list[i].id);
        assert(b.ids()[i] == b.list[i].id);
    }
    assert forall|x: ActivityId| #[trigger] a.pos(x) == b.pos(x) by {
        lemma_find_map(a.list, b.list, named(x), named(x));
    }
}

/// Views stay in order while the pool grows.
pub proof fn lemma_grow_views(p: PoolModel, q: PoolModel, list: Seq<ActivityModel>)
    requires
        grows(p, q),
        views_ok(p, list),
    ensures
        views_ok(q, list),
{
    assert forall|i: int| 0 <= i < list.len() implies activity_ok(q, #[trigger] list[i]) by {
        assert(activity_ok(p, list[i]));
        assert forall|j: int| 0 <= j < list[i].views.len() implies view_ok(
            q,
            list[i].id,
            (#[trigger] list[i].views[j]).view,
        ) by {
            assert(view_ok(p, list[i].id, list[i].views[j].view));
        }
    }
}

/// Replacing the pool by one that is alike keeps the layout coherent.
pub proof fn lemma_alike_coherent(s: LayoutModel, q: PoolModel)
    requires
        s.coherent(),
        alike(s.pool, q),
    ensures
        (LayoutModel { pool: q, ..s }).coherent(),
{
    lemma_alike(s.pool, q);
    lemma_grow_views(s.pool, q, s.acts.list);
    assert forall|i: int| 0 <= i < q.items.len() implies member_ok(
        s.acts,
        #[trigger] q.items[i],
    ) by {
        assert(member_ok(s.acts, s.pool.items[i]));
    }
}

/// Adding a workspace of live activities keeps the layout coherent.
pub proof fn lemma_push_coherent(s: LayoutModel, w: WorkspaceModel)
    requires
        s.coherent(),
        s.pool.next < u64::MAX,
        w.id == s.pool.next_id(),
        member_ok(s.acts, w),
    ensures
        (LayoutModel {
            pool: PoolModel { items: s.pool.items.push(w), next: s.pool.next + 1 },
            ..s
        }).coherent(),
{
    let q = PoolModel { items: s.pool.items.push(w), next: s.pool.next + 1 };
    lemma_push(s.pool, w);
    lemma_grow_views(s.pool, q, s.acts.list);
    assert forall|i: int| 0 <= i < q.items.len() implies member_ok(
        s.acts,
        #[trigger] q.items[i],
    ) by {
        if i < s.pool.items.len() {
            assert(q.items[i] == s.pool.items[i]);
        }
    }
}

/// Replacing one activity by a version of it that is in order keeps the layout coherent.
pub proof fn lemma_put_coherent(s: LayoutModel, act: ActivityId, a: ActivityModel)
    requires
        s.coherent(),
        a.id == act,
        activity_ok(s.pool, a),
    ensures
        (LayoutModel { acts: s.acts.put(act, a), ..s }).coherent(),
        s.acts.put(act, a).ids() == s.acts.ids(),
{
    let acts = s.acts.put(act, a);
    lemma_act(s.acts, act);
    crate::materialize::lemma_put_ids(s.acts, act, a);
    lemma_same_ids(s.acts, acts);
    assert(acts_ok(acts));
    assert forall|i: int| 0 <= i < acts.list.len() implies activity_ok(
        s.pool,
        #[trigger] acts.list[i],
    ) by {
        assert(activity_ok(s.pool, s.acts.list[i]));
    }
    assert forall|i: int| 0 <= i < s.pool.items.len() implies member_ok(
        acts,
        #[trigger] s.pool.items[i],
    ) by {
        assert(member_ok(s.acts, s.pool.items[i]));
    }
}

/// The view that an activity in order has of an output is in order.
pub proof fn lemma_view_is_ok(s: LayoutModel, act: ActivityId, out: OutputId)
    requires
        s.coherent(),
    ensures
        match s.view_of(act, out) {
            Some(v) => view_ok(s.pool, act, v),
            None => true,
        },
{
    lemma_act(s.acts, act);
    if let Some(a) = s.acts.get(act) {
        lemma_find_from(a.views, keyed(out), 0);
    }
}

/// Replacing a view by one in order keeps the layout coherent.
pub proof fn lemma_with_view_coherent(s: LayoutModel, act: ActivityId, out: OutputId, v: ViewModel)
    requires
        s.coherent(),
        view_ok(s.pool, act, v),
    ensures
        s.with_view(act, out, v).coherent(),
{
    if let Some(a) = s.acts.get(act) {
        lemma_act(s.acts, act);
        lemma_find_from(a.views, keyed(out), 0);
        let b = a.set_view(out, v);
        assert(activity_ok(s.pool, a));
        assert(activity_ok(s.pool, b)) by {
            assert forall|j: int| 0 <= j < b.views.len() implies view_ok(
                s.pool,
                b.id,
                (#[trigger] b.views[j]).view,
            ) by {
                assert(view_ok(s.pool, a.id, a.views[j].view));
            }
            assert forall|i: int, j: int| 0 <= i < j < b.views.len() implies (
            #[trigger] b.views[i]).output != (#[trigger] b.views[j]).output by {
                assert(a.views[i].output != a.views[j].output);
            }
        }
        lemma_put_coherent(s, act, b);
    }
}

/// Adding a view in order of an output that the activity has no view of keeps the layout coherent.
pub proof fn lemma_add_view_coherent(s: LayoutModel, act: ActivityId, out: OutputId, v: ViewModel)
    requires
        s.coherent(),
        view_ok(s.pool, act, v),
        s.view_of(act, out) is None,
    ensures
        (LayoutModel { acts: s.acts.add_view(act, out, v), ..s }).coherent(),
{
    if let Some(a) = s.acts.get(act) {
        lemma_act(s.acts, act);
        lemma_find_from(a.views, keyed(out), 0);
        let b = a.add_view(out, v);
        assert(activity_ok(s.pool, a));
        assert(activity_ok(s.pool, b)) by {
            assert forall|j: int| 0 <= j < b.views.len() implies view_ok(
                s.pool,
                b.id,
                (#[trigger] b.views[j]).view,
            ) by {
                if j < a.views.len() {
                    assert(view_ok(s.pool, a.id, a.views[j].view));
                }
            }
            assert forall|i: int, j: int| 0 <= i < j < b.views.len() implies (
            #[trigger] b.views[i]).output != (#[trigger] b.views[j]).output by {
                assert(b.views[i] == a.views[i]);
                if j < a.views.len() {
                    assert(b.views[j] == a.views[j]);
                }
            }
        }
        lemma_put_coherent(s, act, b);
    }
}

/// Dropping a view keeps the layout coherent.
pub proof fn lemma_drop_view_ok(pool: PoolModel, a: ActivityModel, out: OutputId)
    requires
        activity_ok(pool, a),
    ensures
        activity_ok(pool, a.drop_view(out)),
        a.drop_view(out).id == a.id,
        a.drop_view(out).view_of(out) is None,
        forall|o: OutputId| o != out ==> #[trigger] a.drop_view(out).view_of(o) == a.view_of(o),
{
    lemma_find_from(a.views, keyed(out), 0);
    let b = a.drop_view(out);
    if let Some(k) = a.view_pos(out) {
        assert forall|j: int| 0 <= j < b.views.len() implies #[trigger] b.views[j]
            == a.views[if j < k {
            j
        } else {
            j + 1
        }] by {}
    }
    lemma_find_from(b.views, keyed(out), 0);
    if let Some(j) = b.view_pos(out) {
        let k = a.view_pos(out).unwrap();
        let i = if j < k {
            j
        } else {
            j + 1
        };
        assert(b.views[j] == a.views[i]);
        if i < k {
            assert(a.views[i].output != a.views[k].output);
        } else {
            assert(a.views[k].output != a.views[i].output);
        }
    }
    assert forall|o: OutputId| o != out implies #[trigger] b.view_of(o) == a.view_of(o) by {
        lemma_find_from(a.views, keyed(o), 0);
        lemma_find_from(b.views, keyed(o), 0);
        if let Some(k) = a.view_pos(out) {
            if let Some(i) = a.view_pos(o) {
                let i2 = if i < k {
                    i
                } else {
                    i - 1
                };
                assert(b.views[i2] == a.views[i]);
                if let Some(j) = b.view_pos(o) {
                    if j != i2 {
                        let (lo, hi) = if j < i2 {
                            (j, i2)
                        } else {
                            (i2, j)
                        };
                        assert(b.views[lo].output != b.views[hi].output) by {
                            let l = if lo < k {
                                lo
                            } else {
                                lo + 1
                            };
                            let h = if hi < k {
                                hi
                            } else {
                                hi + 1
                            };
                            assert(a.views[l].output != a.views[h].output);
                        }
                    }
                }
            } else if let Some(j) = b.view_pos(o) {
                assert(b.views[j] == a.views[if j < k {
                    j
                } else {
                    j + 1
                }]);
            }
        }
    }
}

/// Dropping a view keeps the layout coherent.
pub proof fn lemma_drop_view_coherent(s: LayoutModel, act: ActivityId, out: OutputId)
    requires
        s.coherent(),
    ensures
        (LayoutModel { acts: s.acts.drop_view(act, out), ..s }).coherent(),
{
    if let Some(a) = s.acts.get(act) {
        lemma_act(s.acts, act);
        lemma_drop_view_ok(s.pool, a, out);
        lemma_put_coherent(s, act, a.drop_view(out));
    }
}

} // verus!
