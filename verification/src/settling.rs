//! What putting in bookends takes: one new workspace for each that is missing, and nothing else
//! changes. Bringing views in agreement with membership a second time changes nothing.

use vstd::prelude::*;

use crate::activity::{holding, ActivityModel, EntryModel};
use crate::changing::lists_once;
use crate::coherence::{activity_ok, lemma_view_is_ok, view_ok, views_ok};
use crate::ids::{ActivityId, OutputId, WorkspaceId};
use crate::keeping::lemma_normalize_view;
use crate::layout::LayoutModel;
use crate::pool::PoolModel;
use crate::reconcile::{
    all_missing, all_strays, missing_in, strayed, strays_among, strays_in, unseen, Missing, Stray,
};
use crate::transfer::lemma_view_after_set_other;

verus! {

impl LayoutModel {
    /// How many bookends activity `act`'s view of monitor `m` lacks.
    pub open spec fn lacking(self, act: ActivityId, m: int) -> int {
        match self.view_of(act, self.monitors[m].output.id) {
            Some(v) => if v.ids.len() == 0 {
                0
            } else {
                (if self.pool.busy(v.ids.last()) {
                    1int
                } else {
                    0
                }) + (if self.monitors[m].empty_workspace_above_first && self.pool.busy(v.ids[0]) {
                    1int
                } else {
                    0
                })
            },
            None => 0,
        }
    }

    /// How many bookends the first `n` activities' views of monitor `m` lack.
    pub open spec fn lacking_acts(self, m: int, n: int) -> int
        decreases n,
    {
        if n <= 0 {
            0
        } else {
            self.lacking_acts(m, n - 1) + self.lacking(self.acts.list[n - 1].id, m)
        }
    }

    /// How many bookends the views of the first `n` monitors lack.
    pub open spec fn lacking_mons(self, n: int) -> int
        decreases n,
    {
        if n <= 0 {
            0
        } else {
            self.lacking_mons(n - 1) + self.lacking_acts(n - 1, self.acts.list.len() as int)
        }
    }

    /// How many bookends the views of the connected outputs lack.
    pub open spec fn bookends_lacking(self) -> int {
        self.lacking_mons(self.monitors.len() as int)
    }

    /// The monitors show different outputs.
    pub open spec fn monitors_differ(self) -> bool {
        forall|i: int, j: int|
            0 <= i < j < self.monitors.len() ==> (#[trigger] self.monitors[i]).output.id != (
            #[trigger] self.monitors[j]).output.id
    }
}

/// The predicate that picks what is among `ids`.
pub open spec fn one_of(ids: Seq<WorkspaceId>) -> spec_fn(WorkspaceId) -> bool {
    |x: WorkspaceId| ids.contains(x)
}

/// Completing one view takes one new workspace for each bookend that it lacks; the other views
/// lack what they did.
pub proof fn lemma_normalize_view_counts(s: LayoutModel, mon: int, act: ActivityId)
    requires
        s.coherent(),
        s.monitors_differ(),
        0 <= mon < s.monitors.len(),
        s.normalize_view(mon, act).fits(),
    ensures
        s.normalize_view(mon, act).pool.next == s.pool.next + s.lacking(act, mon),
        s.normalize_view(mon, act).pool.items.len() == s.pool.items.len() + s.lacking(act, mon),
        forall|a: ActivityId, m: int|
            0 <= m < s.monitors.len() && (a != act || m != mon) ==> #[trigger] s.normalize_view(
                mon,
                act,
            ).lacking(a, m) == s.lacking(a, m),
{
    let out = s.monitors[mon].output.id;
    let t = s.normalize_view(mon, act);
    lemma_normalize_view(s, mon, act);
    crate::bookends::lemma_normalize_view_leads(s, mon, act);
    if let Some(v) = s.view_of(act, out) {
        lemma_view_is_ok(s, act, out);
        let low = s.pool.busy(v.ids.last());
        let high = s.monitors[mon].empty_workspace_above_first && s.pool.busy(v.ids[0]);
        let n = v.ids.len() as int;
        let id1 = s.pool.next_id();
        let lower = if low {
            s.mint_into(mon, act, n)
        } else {
            s
        };
        crate::bookends::lemma_mint_into_leads(s, mon, act, n);
        crate::transfer::lemma_view_after_mint(s, mon, act, n);
        let v1 = if low {
            v.insert(n, id1)
        } else {
            v
        };
        assert(lower.view_of(act, out) == Some(v1));
        assert(lower.monitors[mon].output.id == out);
        let id2 = lower.pool.next_id();
        assert forall|a: ActivityId, m: int|
            0 <= m < s.monitors.len() && (a != act || m != mon) implies #[trigger] t.lacking(a, m)
            == s.lacking(a, m) by {
            let o = s.monitors[m].output.id;
            assert(t.monitors[m].output == s.monitors[m].output);
            assert(a != act || o != out) by {
                if m < mon {
                    assert(s.monitors[m].output.id != s.monitors[mon].output.id);
                } else if mon < m {
                    assert(s.monitors[mon].output.id != s.monitors[m].output.id);
                }
            }
            lemma_view_after_set_other(s.acts, act, out, v.insert(n, id1), a, o);
            assert(lower.view_of(a, o) == s.view_of(a, o));
            lemma_view_after_set_other(lower.acts, act, out, v1.insert(0, id2), a, o);
            assert(t.view_of(a, o) == s.view_of(a, o));
            if let Some(w) = s.view_of(a, o) {
                lemma_view_is_ok(s, a, o);
                assert(w.ids.contains(w.ids.last()));
                assert(w.ids.contains(w.ids[0]));
                assert(s.pool.member(w.ids.last(), a));
                assert(s.pool.member(w.ids[0], a));
                assert(s.pool.has(w.ids.last()) && s.pool.has(w.ids[0]));
            }
        }
    } else {
        assert(t == s);
    }
}

/// Completing the views of one monitor takes one new workspace for each bookend that they lack.
pub proof fn lemma_normalize_acts_counts(s: LayoutModel, mon: int, n: int)
    requires
        s.coherent(),
        s.monitors_differ(),
        0 <= mon < s.monitors.len(),
        0 <= n <= s.acts.list.len(),
        s.normalize_acts(mon, n).fits(),
    ensures
        s.normalize_acts(mon, n).pool.next == s.pool.next + s.lacking_acts(mon, n),
        s.normalize_acts(mon, n).pool.items.len() == s.pool.items.len() + s.lacking_acts(mon, n),
        forall|k: int, m: int|
            0 <= m < s.monitors.len() && 0 <= k < s.acts.list.len() && (k >= n || m != mon)
                ==> #[trigger] s.normalize_acts(mon, n).lacking(s.acts.list[k].id, m) == s.lacking(
                s.acts.list[k].id,
                m,
            ),
    decreases n,
{
    if n > 0 {
        let t = s.normalize_acts(mon, n - 1);
        let u = s.normalize_acts(mon, n);
        let act = s.acts.list[n - 1].id;
        crate::bookends::lemma_normalize_acts_leads(s, mon, n - 1, n - 1);
        crate::bookends::lemma_normalize_view_leads(t, mon, act);
        crate::keeping::lemma_normalize_acts(s, mon, n - 1);
        lemma_normalize_acts_counts(s, mon, n - 1);
        assert forall|i: int, j: int| 0 <= i < j < t.monitors.len() implies (
        #[trigger] t.monitors[i]).output.id != (#[trigger] t.monitors[j]).output.id by {
            assert(s.monitors[i].output.id != s.monitors[j].output.id);
        }
        lemma_normalize_view_counts(t, mon, act);
        assert(t.lacking(s.acts.list[n - 1].id, mon) == s.lacking(s.acts.list[n - 1].id, mon));
        assert forall|k: int, m: int|
            0 <= m < s.monitors.len() && 0 <= k < s.acts.list.len() && (k >= n || m
                != mon) implies #[trigger] u.lacking(s.acts.list[k].id, m) == s.lacking(
            s.acts.list[k].id,
            m,
        ) by {
            assert(t.lacking(s.acts.list[k].id, m) == s.lacking(s.acts.list[k].id, m));
            if k >= n {
                assert(s.acts.list[n - 1].id != s.acts.list[k].id);
            }
        }
    }
}

/// Completing the views of the first monitors takes one new workspace for each bookend that they
/// lack.
pub proof fn lemma_normalize_mons_counts(s: LayoutModel, n: int)
    requires
        s.coherent(),
        s.monitors_differ(),
        0 <= n <= s.monitors.len(),
        s.normalize_mons(n).fits(),
    ensures
        s.normalize_mons(n).pool.next == s.pool.next + s.lacking_mons(n),
        s.normalize_mons(n).pool.items.len() == s.pool.items.len() + s.lacking_mons(n),
        forall|k: int, m: int|
            n <= m < s.monitors.len() && 0 <= k < s.acts.list.len() ==> #[trigger] s.normalize_mons(
                n,
            ).lacking(s.acts.list[k].id, m) == s.lacking(s.acts.list[k].id, m),
    decreases n,
{
    if n > 0 {
        let t = s.normalize_mons(n - 1);
        let u = s.normalize_mons(n);
        let c = s.acts.list.len() as int;
        crate::bookends::lemma_normalize_mons_leads(s, n - 1, n - 1);
        crate::bookends::lemma_normalize_acts_leads(t, n - 1, 0, c);
        crate::keeping::lemma_normalize_mons(s, n - 1);
        lemma_normalize_mons_counts(s, n - 1);
        assert(t.acts.list.len() == t.acts.ids().len());
        assert(s.acts.list.len() == s.acts.ids().len());
        assert forall|k: int| 0 <= k < s.acts.list.len() implies (#[trigger] t.acts.list[k]).id
            == s.acts.list[k].id by {
            assert(t.acts.ids()[k] == t.acts.list[k].id);
            assert(s.acts.ids()[k] == s.acts.list[k].id);
        }
        assert forall|i: int, j: int| 0 <= i < j < t.monitors.len() implies (
        #[trigger] t.monitors[i]).output.id != (#[trigger] t.monitors[j]).output.id by {
            assert(s.monitors[i].output.id != s.monitors[j].output.id);
        }
        lemma_normalize_acts_counts(t, n - 1, c);
        lemma_lacking_same(s, t, n - 1, c);
        assert forall|k: int, m: int|
            n <= m < s.monitors.len() && 0 <= k < s.acts.list.len() implies #[trigger] u.lacking(
            s.acts.list[k].id,
            m,
        ) == s.lacking(s.acts.list[k].id, m) by {
            assert(u.lacking(t.acts.list[k].id, m) == t.lacking(t.acts.list[k].id, m));
        }
    }
}

/// Views that lack the same one by one lack the same together.
pub proof fn lemma_lacking_same(s: LayoutModel, t: LayoutModel, m: int, n: int)
    requires
        0 <= n <= s.acts.list.len(),
        t.acts.list.len() == s.acts.list.len(),
        forall|k: int|
            0 <= k < n ==> (#[trigger] t.acts.list[k]).id == s.acts.list[k].id,
        forall|k: int|
            0 <= k < n ==> #[trigger] t.lacking(s.acts.list[k].id, m) == s.lacking(
                s.acts.list[k].id,
                m,
            ),
    ensures
        t.lacking_acts(m, n) == s.lacking_acts(m, n),
    decreases n,
{
    if n > 0 {
        lemma_lacking_same(s, t, m, n - 1);
        assert(t.acts.list[n - 1].id == s.acts.list[n - 1].id);
        assert(t.lacking(s.acts.list[n - 1].id, m) == s.lacking(s.acts.list[n - 1].id, m));
    }
}

/// Putting in missing bookends takes exactly one new workspace for each that is missing. Nothing
/// that was there is removed or changed, and each view holds what it did in the same order. A
/// second time there is nothing left to put in.
pub proof fn law_bookends_only_add(s: LayoutModel)
    requires
        s.coherent(),
        s.monitors_differ(),
        s.normalize().fits(),
    ensures
        s.normalize().pool.next == s.pool.next + s.bookends_lacking(),
        s.normalize().pool.items.len() == s.pool.items.len() + s.bookends_lacking(),
        forall|x: WorkspaceId| #[trigger] s.pool.has(x) ==> s.normalize().pool.get(x)
            == s.pool.get(x),
        forall|a: ActivityId, o: OutputId| #[trigger]
            s.view_of(a, o) is Some ==> s.normalize().view_of(a, o) is Some
                && s.normalize().view_of(a, o).unwrap().ids.filter(
                one_of(s.view_of(a, o).unwrap().ids),
            ) == s.view_of(a, o).unwrap().ids && s.normalize().view_of(a, o).unwrap().active
                == s.view_of(a, o).unwrap().active,
        s.normalize().bookends_lacking() == 0,
        s.normalize().normalize() == s.normalize(),
{
    let n = s.monitors.len() as int;
    let t = s.normalize();
    lemma_normalize_mons_counts(s, n);
    crate::keeping::lemma_normalize_mons(s, n);
    crate::bookends::lemma_normalize_leads(s);
    crate::promises::law_normalize_settles(s);
    assert forall|a: ActivityId, o: OutputId| #[trigger] s.view_of(a, o) is Some implies t.view_of(
        a,
        o,
    ) is Some && t.view_of(a, o).unwrap().ids.filter(
        one_of(s.view_of(a, o).unwrap().ids),
    ) == s.view_of(a, o).unwrap().ids && t.view_of(a, o).unwrap().active == s.view_of(
        a,
        o,
    ).unwrap().active by {
        let v = s.view_of(a, o).unwrap();
        let q = one_of(v.ids);
        assert forall|x: WorkspaceId| #[trigger] q(x) implies s.shows_on(a, o, x) by {}
        crate::returning::lemma_normalize_pick(s, n, a, o, q);
        assert forall|i: int| 0 <= i < v.ids.len() implies #[trigger] q(v.ids[i]) by {}
        crate::cores::lemma_filter_all(v.ids, q);
    }
    assert(t.monitors_differ()) by {
        assert forall|i: int, j: int| 0 <= i < j < t.monitors.len() implies (
        #[trigger] t.monitors[i]).output.id != (#[trigger] t.monitors[j]).output.id by {
            assert(s.monitors[i].output.id != s.monitors[j].output.id);
        }
    }
    lemma_normalize_mons_counts(t, n);
}

/// Where every view lists only what its activity has, there is nothing to take out.
pub proof fn lemma_no_strays_among(
    pool: PoolModel,
    act: ActivityId,
    out: OutputId,
    ids: Seq<WorkspaceId>,
)
    requires
        forall|k: int| 0 <= k < ids.len() ==> pool.member(#[trigger] ids[k], act),
    ensures
        strays_among(pool, act, out, ids) == Seq::<Stray>::empty(),
    decreases ids.len(),
{
    if ids.len() > 0 {
        lemma_no_strays_among(pool, act, out, ids.drop_last());
        assert(pool.member(ids[ids.len() - 1], act));
    }
}

/// Where every view lists only what its activity has, there is nothing to take out.
pub proof fn lemma_no_strays_in(pool: PoolModel, act: ActivityId, entries: Seq<EntryModel>)
    requires
        forall|j: int| 0 <= j < entries.len() ==> view_ok(pool, act, (#[trigger] entries[j]).view),
    ensures
        strays_in(pool, act, entries) == Seq::<Stray>::empty(),
    decreases entries.len(),
{
    if entries.len() > 0 {
        lemma_no_strays_in(pool, act, entries.drop_last());
        let e = entries[entries.len() - 1];
        assert(view_ok(pool, act, e.view));
        assert forall|k: int| 0 <= k < e.view.ids.len() implies pool.member(
            #[trigger] e.view.ids[k],
            act,
        ) by {
            assert(e.view.ids.contains(e.view.ids[k]));
        }
        lemma_no_strays_among(pool, act, e.output, e.view.ids);
    }
}

/// Where every view lists only what its activity has, there is nothing to take out.
pub proof fn lemma_no_strays(pool: PoolModel, list: Seq<ActivityModel>)
    requires
        views_ok(pool, list),
    ensures
        all_strays(pool, list) == Seq::<Stray>::empty(),
    decreases list.len(),
{
    if list.len() > 0 {
        let rest = list.drop_last();
        assert(views_ok(pool, rest)) by {
            assert forall|i: int| 0 <= i < rest.len() implies activity_ok(
                pool,
                #[trigger] rest[i],
            ) by {
                assert(activity_ok(pool, list[i]));
            }
        }
        lemma_no_strays(pool, rest);
        let a = list[list.len() - 1];
        assert(activity_ok(pool, a));
        lemma_no_strays_in(pool, a.id, a.views);
    }
}

/// Where every activity shows what it has, there is nothing to show.
pub proof fn lemma_none_missing(pool: PoolModel, list: Seq<ActivityModel>, parked: Seq<WorkspaceId>)
    requires
        forall|i: int, k: int|
            0 <= i < list.len() && 0 <= k < pool.items.len()
                && #[trigger] pool.items[k].activities.contains(list[i].id) ==> list[i].output_of(
                pool.items[k].id,
            ) is Some,
    ensures
        all_missing(pool, list, parked) == Seq::<Missing>::empty(),
    decreases list.len(),
{
    if list.len() > 0 {
        let rest = list.drop_last();
        assert forall|i: int, k: int|
            0 <= i < rest.len() && 0 <= k < pool.items.len()
                && #[trigger] pool.items[k].activities.contains(
                rest[i].id,
            ) implies rest[i].output_of(pool.items[k].id) is Some by {
            assert(pool.items[k].activities.contains(list[i].id));
        }
        lemma_none_missing(pool, rest, parked);
        let a = list[list.len() - 1];
        assert forall|k: int| 0 <= k < pool.items.len() implies !#[trigger] unseen(a, parked)(
            pool.items[k],
        ) by {
            if pool.items[k].activities.contains(list[list.len() - 1].id) {
                assert(a.output_of(pool.items[k].id) is Some);
            }
        }
        crate::wholeness::lemma_items_filter_none(pool.items, unseen(a, parked));
        assert(missing_in(pool, a, parked) =~= Seq::<Missing>::empty());
    }
}

/// Where the views agree with membership, bringing them in agreement changes nothing.
pub proof fn law_reconciling_is_idle(s: LayoutModel)
    requires
        s.whole(),
    ensures
        s.reconcile() == s,
{
    if s.monitors.len() > 0 {
        let list = s.acts.list;
        lemma_no_strays(s.pool, list);
        assert forall|i: int, k: int|
            0 <= i < list.len() && 0 <= k < s.pool.items.len()
                && #[trigger] s.pool.items[k].activities.contains(
                list[i].id,
            ) implies list[i].output_of(s.pool.items[k].id) is Some by {
            let x = s.pool.items[k].id;
            let a = list[i].id;
            crate::coherence::lemma_get(s.pool, x);
            assert(s.pool.pos(x) == Some(k));
            assert(s.pool.member(x, a));
            crate::coherence::lemma_act_pos(s.acts, i);
            let o = choose|o: OutputId| s.shows_on(a, o, x);
            let ij = crate::wholeness::lemma_view_entry(s, a, o);
            let e = list[i].views[ij.1];
            crate::search::lemma_find_from(e.view.ids, crate::search::equal_to(x), 0);
            assert(holding(x)(e));
            crate::search::lemma_find_from(list[i].views, holding(x), 0);
        }
        lemma_none_missing(s.pool, list, s.parked);
        let none = Seq::<Stray>::empty();
        assert(s.taken(none) == none);
        assert forall|k: int| 0 <= k < s.pool.items.len() implies !#[trigger] strayed(none)(
            s.pool.items[k],
        ) by {}
        crate::wholeness::lemma_items_filter_none(s.pool.items, strayed(none));
        let ids = crate::materialize::ids_of(s.pool.items.filter(strayed(none)));
        assert(ids =~= Seq::<WorkspaceId>::empty());
    }
}

/// Once the views agree with membership, bringing them in agreement again changes nothing.
pub proof fn law_reconciling_twice(s: LayoutModel)
    requires
        s.staffed(),
        lists_once(s.pool),
        s.outputs_apart(),
        s.monitors.len() > 0,
        s.reconcile().mended().fits(),
    ensures
        s.reconcile().mended().reconcile().mended() == s.reconcile().mended(),
{
    let t = s.reconcile().mended();
    crate::abiding::law_reconciling_agrees(s);
    law_reconciling_is_idle(t);
    crate::wholeness::law_mending_is_idle(t);
}

} // verus!
