//! Taking one more output in, step by step: nothing changes for workspaces that are not routed to it.

use vstd::prelude::*;

use crate::activity::{keyed, ActivitiesModel, ActivityModel};
use crate::coherence::{
    grows, lemma_act, lemma_act_pos, lemma_add_view_coherent, lemma_alike, lemma_alike_coherent,
    lemma_same_ids, lemma_view_is_ok, lemma_with_view_coherent, view_ok,
};
use crate::connect::{bound_for, coming_along, leaving, left_behind, peel, peeled};
use crate::cores::{
    busy_of, calm, kept_view, kin, lemma_bind_all_work, lemma_calm_pool, lemma_calm_still,
    lemma_clean_up_calm, lemma_destroy_all_calm, lemma_filter_filter, lemma_filter_insert,
    lemma_filter_none, lemma_filter_remove, lemma_same_core, lemma_same_work_trans,
    lemma_unbind_all_work, same_work, view_core,
};
use crate::ids::{ActivityId, OutputId, WorkspaceId};
use crate::keeping::{lemma_destroy, lemma_destroy_all};
use crate::keeping_outputs::{
    lemma_bind_all_alike, lemma_settle, lemma_unbind_all_alike,
};
use crate::keeping_views::{
    lemma_clean_up, lemma_filter, lemma_framed, lemma_mint, lemma_open_view, lemma_swept,
    lemma_tagged,
};
use crate::layout::LayoutModel;
use crate::materialize::{framed, strip, strip_others, tagged};
use crate::monitor::Monitor;
use crate::outputs::worth_keeping;
use crate::pool::PoolModel;
use crate::promises::{lemma_get_put_act, lemma_open_view_views, lemma_view_after_add};
use crate::reclaim::{doubled, kept, pruned, swept};
use crate::search::{equal_to, lemma_find_from};
use crate::transfer::{lemma_view_after_set, lemma_view_after_set_other};
use crate::view::ViewModel;
use crate::workspace::Output;

verus! {

/// The predicate that picks the workspaces that have windows or a name and are not routed to `o`.
pub open spec fn elsewhere(pool: PoolModel, o: Output) -> spec_fn(WorkspaceId) -> bool {
    |id: WorkspaceId| pool.busy(id) && !bound_for(pool, id, o)
}

/// The workspaces that view `v` shows, if there is one, that have windows or a name and are not
/// routed to `o`.
pub open spec fn rest_of(pool: PoolModel, v: Option<ViewModel>, o: Output) -> Seq<WorkspaceId> {
    match v {
        Some(w) => w.ids.filter(elsewhere(pool, o)),
        None => Seq::empty(),
    }
}

/// Between `s` and `t` nothing changed for workspaces that are not routed to `o`: every view shows
/// the same ones in the same order, and each has the same windows, name and activities.
pub open spec fn spared(s: LayoutModel, t: LayoutModel, o: Output) -> bool {
    &&& same_work(s.pool, t.pool, o)
    &&& t.acts.active == s.acts.active
    &&& forall|a: ActivityId, out: OutputId|
        rest_of(t.pool, #[trigger] t.view_of(a, out), o) == rest_of(s.pool, s.view_of(a, out), o)
}

/// The same workspaces are elsewhere before and after.
pub proof fn lemma_same_elsewhere(p: PoolModel, q: PoolModel, o: Output)
    requires
        same_work(p, q, o),
    ensures
        elsewhere(p, o) == elsewhere(q, o),
{
    assert forall|x: WorkspaceId| #[trigger] elsewhere(p, o)(x) == elsewhere(q, o)(x) by {
        assert(q.busy(x) == p.busy(x));
    }
    assert(elsewhere(p, o) =~= elsewhere(q, o));
}

/// Two sparing steps make one.
pub proof fn lemma_spared_trans(s: LayoutModel, t: LayoutModel, u: LayoutModel, o: Output)
    requires
        spared(s, t, o),
        spared(t, u, o),
    ensures
        spared(s, u, o),
{
    lemma_same_work_trans(s.pool, t.pool, u.pool, o);
    assert forall|a: ActivityId, out: OutputId| rest_of(u.pool, #[trigger] u.view_of(a, out), o)
        == rest_of(s.pool, s.view_of(a, out), o) by {
        assert(rest_of(t.pool, t.view_of(a, out), o) == rest_of(s.pool, s.view_of(a, out), o));
    }
}

/// A calm step is a sparing one.
pub proof fn lemma_calm_spares(s: LayoutModel, t: LayoutModel, o: Output)
    requires
        calm(s, t, o),
    ensures
        spared(s, t, o),
{
    lemma_same_elsewhere(s.pool, t.pool, o);
    lemma_same_core(s.pool, t.pool, o);
    assert forall|a: ActivityId, out: OutputId| rest_of(t.pool, #[trigger] t.view_of(a, out), o)
        == rest_of(s.pool, s.view_of(a, out), o) by {
        assert(kept_view(s.pool, s.view_of(a, out), t.view_of(a, out)));
        lemma_rest_of_core(s.pool, s.view_of(a, out), o);
        lemma_rest_of_core(s.pool, t.view_of(a, out), o);
    }
}

/// What is elsewhere is found among what has windows or a name.
pub proof fn lemma_rest_of_core(pool: PoolModel, v: Option<ViewModel>, o: Output)
    ensures
        rest_of(pool, v, o) == view_core(pool, v).filter(elsewhere(pool, o)),
{
    match v {
        Some(w) => {
            lemma_filter_filter(w.ids, worth_keeping(pool), elsewhere(pool, o));
        },
        None => {
            lemma_filter_none(Seq::<WorkspaceId>::empty(), elsewhere(pool, o));
        },
    }
}

/// Taking the entries that are routed to an output out of a view leaves the others.
pub proof fn lemma_peel(pool: PoolModel, v: ViewModel, o: Output, leading: bool, n: int)
    requires
        v.wf(),
        n <= v.ids.len(),
        exists|i: int| 0 <= i < v.ids.len() && !bound_for(pool, #[trigger] v.ids[i], o),
        forall|i: int| n <= i < v.ids.len() && 0 <= i ==> !bound_for(pool, #[trigger] v.ids[i], o),
    ensures
        ({
            let w = peel(pool, v, o, leading, n);
            &&& w.wf()
            &&& w.ids.filter(elsewhere(pool, o)) == v.ids.filter(elsewhere(pool, o))
            &&& forall|x: WorkspaceId| #[trigger]
                w.ids.contains(x) <==> (v.ids.contains(x) && !bound_for(pool, x, o))
        }),
    decreases n,
{
    let w = peel(pool, v, o, leading, n);
    if n <= 0 {
        assert forall|x: WorkspaceId| #[trigger] w.ids.contains(x) implies !bound_for(
            pool,
            x,
            o,
        ) by {
            let k = choose|k: int| 0 <= k < w.ids.len() && w.ids[k] == x;
            assert(!bound_for(pool, v.ids[k], o));
        }
    } else {
        let i = n - 1;
        let e = choose|e: int| 0 <= e < v.ids.len() && !bound_for(pool, #[trigger] v.ids[e], o);
        if bound_for(pool, v.ids[i], o) {
            assert(e != i);
            assert(v.ids.len() > 1);
            let u = peeled(v, i, leading);
            crate::view::lemma_remove_wf(v, i);
            let r = v.remove_at(i);
            assert(u.ids == r.ids);
            assert(u.ids.contains(u.active)) by {
                if u.active != r.active {
                    let at = if r.ids.len() > 1 {
                        1int
                    } else {
                        0
                    };
                    assert(r.ids[at] == u.active);
                }
            }
            assert(u.wf());
            let e2 = if e < i {
                e
            } else {
                e - 1
            };
            assert(u.ids[e2] == v.ids[e]);
            assert(!bound_for(pool, u.ids[e2], o));
            assert forall|k: int| n - 1 <= k < u.ids.len() && 0 <= k implies !bound_for(
                pool,
                #[trigger] u.ids[k],
                o,
            ) by {
                assert(u.ids[k] == v.ids[k + 1]);
            }
            lemma_peel(pool, u, o, leading, n - 1);
            lemma_filter_remove(v.ids, i, elsewhere(pool, o));
            assert forall|x: WorkspaceId| #[trigger] w.ids.contains(x) <==> (v.ids.contains(x)
                && !bound_for(pool, x, o)) by {
                if v.ids.contains(x) && !bound_for(pool, x, o) {
                    let k = choose|k: int| 0 <= k < v.ids.len() && v.ids[k] == x;
                    assert(k != i);
                    if k < i {
                        assert(u.ids[k] == x);
                    } else {
                        assert(u.ids[k - 1] == x);
                    }
                    assert(u.ids.contains(x));
                }
                if u.ids.contains(x) {
                    let k = choose|k: int| 0 <= k < u.ids.len() && u.ids[k] == x;
                    if k < i {
                        assert(v.ids[k] == x);
                    } else {
                        assert(v.ids[k + 1] == x);
                    }
                }
            }
        } else {
            assert forall|k: int| n - 1 <= k < v.ids.len() && 0 <= k implies !bound_for(
                pool,
                #[trigger] v.ids[k],
                o,
            ) by {
                if k >= n {
                    assert(!bound_for(pool, v.ids[k], o));
                }
            }
            lemma_peel(pool, v, o, leading, n - 1);
        }
    }
}

/// Peeling the primary monitor spares what is elsewhere. The primary monitor is left with
/// workspaces that are not routed to the output; the other views only lose empty ones.
pub proof fn lemma_peel_primary(s: LayoutModel, o: Output)
    requires
        s.coherent(),
        0 <= s.primary < s.monitors.len(),
        match s.active_view(s.monitors[s.primary].output.id) {
            Some(v) => exists|i: int|
                0 <= i < v.ids.len() && !bound_for(s.pool, #[trigger] v.ids[i], o),
            None => false,
        },
    ensures
        s.peel_primary(o).coherent(),
        spared(s, s.peel_primary(o), o),
        forall|x: WorkspaceId, a: ActivityId| #[trigger]
            s.pool.member(x, a) && s.peel_primary(o).pool.has(x) ==> s.peel_primary(
                o,
            ).pool.member(x, a),
{
    let p = s.monitors[s.primary];
    let out = p.output.id;
    let leading = p.empty_workspace_above_first;
    let act = s.acts.active;
    let v = s.active_view(out).unwrap();
    lemma_view_is_ok(s, act, out);
    let w = peel(s.pool, v, o, leading, v.ids.len() as int);
    lemma_peel(s.pool, v, o, leading, v.ids.len() as int);
    let going = v.ids.filter(leaving(s.pool, o));
    let s1 = LayoutModel { pool: s.pool.unbind_all(going), ..s };
    lemma_unbind_all_work(s.pool, going, o);
    lemma_unbind_all_alike(s.pool, going);
    lemma_alike(s.pool, s1.pool);
    lemma_alike_coherent(s, s1.pool);
    lemma_calm_pool(s, s1.pool, o);
    lemma_calm_spares(s, s1, o);
    let s2 = s1.with_view(act, out, w);
    assert(view_ok(s1.pool, act, w)) by {
        assert forall|x: WorkspaceId| #[trigger] w.ids.contains(x) implies s1.pool.member(
            x,
            act,
        ) by {
            assert(s.pool.member(x, act));
        }
    }
    lemma_with_view_coherent(s1, act, out, w);
    lemma_view_after_set(s1.acts, act, out, w);
    lemma_same_elsewhere(s.pool, s1.pool, o);
    assert(spared(s1, s2, o)) by {
        assert forall|a: ActivityId, b: OutputId| rest_of(s2.pool, #[trigger] s2.view_of(a, b), o)
            == rest_of(s1.pool, s1.view_of(a, b), o) by {
            if a != act || b != out {
                lemma_view_after_set_other(s1.acts, act, out, w, a, b);
            }
        }
    }
    lemma_spared_trans(s, s1, s2, o);
    let stopped = going.len() > 0 && p.workspace_switch is Some;
    let s3 = if stopped {
        s2.settle(s.primary)
    } else {
        s2
    };
    lemma_settle(s2, s.primary);
    lemma_calm_still(s2, s3, o);
    lemma_calm_spares(s2, s3, o);
    lemma_spared_trans(s, s2, s3, o);
    let t = s.peel_primary(o);
    if stopped || (leading && w.ids.len() == 2) {
        lemma_clean_up(s3, s.primary);
        lemma_clean_up_calm(s3, s.primary, o);
        lemma_calm_spares(s3, t, o);
        lemma_spared_trans(s, s3, t, o);
    }
}

/// Destroying workspaces that a view does not show, or that are shared, leaves the view alone.
pub proof fn lemma_destroy_all_view(s: LayoutModel, ids: Seq<WorkspaceId>, a: ActivityId, out: OutputId)
    requires
        s.coherent(),
        forall|i: int|
            0 <= i < ids.len() ==> s.pool.shared(#[trigger] ids[i]) || !s.parked.contains(ids[i]),
        match s.view_of(a, out) {
            Some(v) => forall|x: WorkspaceId| #[trigger]
                v.ids.contains(x) ==> !ids.contains(x) || s.pool.shared(x),
            None => true,
        },
    ensures
        s.destroy_all(ids).view_of(a, out) == s.view_of(a, out),
    decreases ids.len(),
{
    if ids.len() > 0 {
        let rest = ids.drop_last();
        let id = ids.last();
        assert(ids[ids.len() - 1] == id);
        assert(ids.contains(id));
        assert forall|x: WorkspaceId| #[trigger] rest.contains(x) implies ids.contains(x) by {
            let k = choose|k: int| 0 <= k < rest.len() && rest[k] == x;
            assert(ids[k] == x);
        }
        assert forall|i: int| 0 <= i < rest.len() implies s.pool.shared(#[trigger] rest[i])
            || !s.parked.contains(rest[i]) by {
            assert(rest[i] == ids[i]);
        }
        lemma_destroy_all_view(s, rest, a, out);
        lemma_destroy_all(s, rest);
        crate::reclaim::lemma_destroy_all_leads(s, rest);
        let t = s.destroy_all(rest);
        assert(s.pool.shared(id) ==> t.pool.get(id) == s.pool.get(id));
        lemma_destroy(t, id);
        if let Some(v) = s.view_of(a, out) {
            lemma_find_from(v.ids, equal_to(id), 0);
            if let Some(p) = v.position_of(id) {
                assert(v.ids[p] == id);
                assert(v.ids.contains(id));
            }
        }
    }
}

impl LayoutModel {
    /// The active activity shows no workspace of monitor `mon` on any other output.
    pub open spec fn apart_from(self, mon: int) -> bool {
        let out = self.monitors[mon].output.id;
        forall|b: OutputId, x: WorkspaceId|
            b != out && #[trigger] self.shows_on(self.acts.active, b, x) ==> !self.shows_on(
                self.acts.active,
                out,
                x,
            )
    }
}

/// Sweeping a monitor touches no view but the active one of that monitor, which it does not empty.
pub proof fn lemma_clean_up_views(s: LayoutModel, mon: int)
    requires
        s.coherent(),
        0 <= mon < s.monitors.len(),
        s.apart_from(mon),
    ensures
        forall|a: ActivityId, b: OutputId|
            a != s.acts.active || b != s.monitors[mon].output.id ==> #[trigger] s.clean_up(
                mon,
            ).view_of(a, b) == s.view_of(a, b),
        match s.active_view(s.monitors[mon].output.id) {
            Some(v) => match s.clean_up(mon).view_of(s.acts.active, s.monitors[mon].output.id) {
                Some(w) => forall|x: WorkspaceId| #[trigger]
                    w.ids.contains(x) ==> v.ids.contains(x),
                None => false,
            },
            None => s.clean_up(mon) == s,
        },
{
    let m = s.monitors[mon];
    let leading = m.empty_workspace_above_first;
    let act = s.acts.active;
    let out = m.output.id;
    if let Some(v) = s.active_view(out) {
        lemma_view_is_ok(s, act, out);
        let v1 = swept(s.pool, v, leading);
        lemma_swept(s.pool, v, leading);
        let gone = v.ids.filter(pruned(s.pool, v, leading));
        lemma_filter(v.ids, pruned(s.pool, v, leading));
        let two = doubled(s.pool, v1, leading);
        let v2 = if two {
            v1.remove_at(1)
        } else {
            v1
        };
        let ids = if two {
            gone.push(v1.ids[1])
        } else {
            gone
        };
        if two {
            crate::view::lemma_remove_wf(v1, 1);
            assert(v1.ids.contains(v1.ids[1]));
            assert(v2.ids =~= seq![v1.ids[0]]);
            assert(v1.ids.contains(v1.ids[0]));
        }
        let t = s.with_view(act, out, v2);
        lemma_with_view_coherent(s, act, out, v2);
        lemma_view_after_set(s.acts, act, out, v2);
        let u = s.clean_up(mon);
        assert(u == t.destroy_all(ids));
        assert forall|x: WorkspaceId| #[trigger] ids.contains(x) implies v.ids.contains(x)
            && s.pool.exclusive(x) && !v2.ids.contains(x) by {
            let k = choose|k: int| 0 <= k < ids.len() && ids[k] == x;
            if k < gone.len() {
                assert(gone[k] == x);
                assert(gone.contains(x));
                assert(!kept(s.pool, v, leading)(x));
                assert(!v1.ids.contains(x));
            } else {
                assert(x == v1.ids[1]);
                assert(v1.ids.contains(x));
                assert(v1.ids[0] != v1.ids[1]);
            }
        }
        lemma_destroy_all_view(t, ids, act, out);
        assert(u.view_of(act, out) == Some(v2));
        assert forall|x: WorkspaceId| #[trigger] v2.ids.contains(x) implies v.ids.contains(x) by {
            if two {
                assert(x == v1.ids[0]);
            }
            assert(v1.ids.contains(x));
        }
        assert forall|a: ActivityId, b: OutputId| a != act || b != out implies #[trigger] u.view_of(
            a,
            b,
        ) == s.view_of(a, b) by {
            lemma_view_after_set_other(s.acts, act, out, v2, a, b);
            lemma_view_is_ok(s, a, b);
            if let Some(z) = s.view_of(a, b) {
                assert forall|x: WorkspaceId| #[trigger] z.ids.contains(x) implies !ids.contains(
                    x,
                ) by {
                    if ids.contains(x) {
                        assert(s.pool.member(x, a));
                        assert(s.pool.member(x, act));
                        if a == act {
                            assert(s.shows_on(act, b, x));
                            assert(s.shows_on(act, out, x));
                        } else {
                            let l = s.pool.get(x).unwrap().activities;
                            let i = choose|i: int| 0 <= i < l.len() && l[i] == a;
                            let j = choose|j: int| 0 <= j < l.len() && l[j] == act;
                            assert(l.len() == 1);
                        }
                    }
                }
            }
            lemma_destroy_all_view(t, ids, a, b);
        }
    }
}

/// Which views there are once the primary monitor is peeled.
pub proof fn lemma_peel_primary_views(s: LayoutModel, o: Output)
    requires
        s.coherent(),
        0 <= s.primary < s.monitors.len(),
        s.apart_from(s.primary),
        match s.active_view(s.monitors[s.primary].output.id) {
            Some(v) => exists|i: int|
                0 <= i < v.ids.len() && !bound_for(s.pool, #[trigger] v.ids[i], o),
            None => false,
        },
    ensures
        forall|a: ActivityId, b: OutputId|
            a != s.acts.active || b != s.monitors[s.primary].output.id
                ==> #[trigger] s.peel_primary(o).view_of(a, b) == s.view_of(a, b),
        match s.peel_primary(o).view_of(s.acts.active, s.monitors[s.primary].output.id) {
            Some(w) => forall|x: WorkspaceId| #[trigger]
                w.ids.contains(x) ==> s.shows_on(
                    s.acts.active,
                    s.monitors[s.primary].output.id,
                    x,
                ) && !bound_for(s.pool, x, o),
            None => false,
        },
{
    let p = s.monitors[s.primary];
    let out = p.output.id;
    let leading = p.empty_workspace_above_first;
    let act = s.acts.active;
    let v = s.active_view(out).unwrap();
    lemma_view_is_ok(s, act, out);
    let w = peel(s.pool, v, o, leading, v.ids.len() as int);
    lemma_peel(s.pool, v, o, leading, v.ids.len() as int);
    let going = v.ids.filter(leaving(s.pool, o));
    let s1 = LayoutModel { pool: s.pool.unbind_all(going), ..s };
    lemma_unbind_all_alike(s.pool, going);
    lemma_alike(s.pool, s1.pool);
    lemma_alike_coherent(s, s1.pool);
    let s2 = s1.with_view(act, out, w);
    assert(view_ok(s1.pool, act, w)) by {
        assert forall|x: WorkspaceId| #[trigger] w.ids.contains(x) implies s1.pool.member(
            x,
            act,
        ) by {
            assert(s.pool.member(x, act));
        }
    }
    lemma_with_view_coherent(s1, act, out, w);
    lemma_view_after_set(s1.acts, act, out, w);
    let stopped = going.len() > 0 && p.workspace_switch is Some;
    let s3 = if stopped {
        s2.settle(s.primary)
    } else {
        s2
    };
    lemma_settle(s2, s.primary);
    assert forall|a: ActivityId, b: OutputId| a != act || b != out implies #[trigger] s3.view_of(
        a,
        b,
    ) == s.view_of(a, b) by {
        lemma_view_after_set_other(s1.acts, act, out, w, a, b);
    }
    assert(s3.view_of(act, out) == Some(w));
    assert(s3.apart_from(s.primary)) by {
        assert forall|b: OutputId, x: WorkspaceId| b != out && #[trigger] s3.shows_on(
            act,
            b,
            x,
        ) implies !s3.shows_on(act, out, x) by {
            assert(s3.view_of(act, b) == s.view_of(act, b));
            if s3.shows_on(act, out, x) {
                assert(w.ids.contains(x));
                assert(s.shows_on(act, out, x));
                assert(s.shows_on(act, b, x));
            }
        }
    }
    if stopped || (leading && w.ids.len() == 2) {
        lemma_clean_up_views(s3, s.primary);
    }
}

/// Minting an empty workspace changes no work.
pub proof fn lemma_mint_work(s: LayoutModel, out: OutputId, act: ActivityId, o: Output)
    requires
        s.coherent(),
        s.acts.has(act),
        s.pool.next < u64::MAX,
    ensures
        same_work(s.pool, s.pool.mint(out, act), o),
        !s.pool.mint(out, act).busy(s.pool.next_id()),
{
    lemma_mint(s, out, act);
    let q = s.pool.mint(out, act);
    let id = s.pool.next_id();
    assert forall|x: WorkspaceId| #[trigger] q.busy(x) == s.pool.busy(x) by {
        if x != id {
            assert(q.get(x) == s.pool.get(x));
        }
    }
    assert forall|x: WorkspaceId| #[trigger] s.pool.busy(x) implies kin(
        s.pool.get(x).unwrap(),
        q.get(x).unwrap(),
    ) && bound_for(q, x, o) == bound_for(s.pool, x, o) by {
        assert(q.get(x) == s.pool.get(x));
    }
}

/// The view that a monitor is opened with.
pub open spec fn opening_view(
    pool: PoolModel,
    m: Monitor,
    act: ActivityId,
    body: Seq<WorkspaceId>,
    remembered: Option<WorkspaceId>,
) -> ViewModel {
    let p0 = pool.bind_all(body, m.output);
    let bottom = p0.next_id();
    let p1 = p0.mint(m.output.id, act);
    let top = if m.empty_workspace_above_first && body.len() > 0 {
        Some(p1.next_id())
    } else {
        None
    };
    let v = framed(body, bottom, top);
    match remembered {
        Some(r) => if body.contains(r) {
            ViewModel { active: r, ..v }
        } else {
            v
        },
        None => v,
    }
}

/// A filter sees only the body of a framed view if it picks neither bookend.
pub proof fn lemma_framed_filter(
    body: Seq<WorkspaceId>,
    bottom: WorkspaceId,
    top: Option<WorkspaceId>,
    p: spec_fn(WorkspaceId) -> bool,
)
    requires
        !p(bottom),
        match top {
            Some(t) => !p(t),
            None => true,
        },
    ensures
        framed(body, bottom, top).ids.filter(p) == body.filter(p),
{
    assert(body.push(bottom) =~= body.insert(body.len() as int, bottom));
    lemma_filter_insert(body, body.len() as int, bottom, p);
    if let Some(t) = top {
        assert(seq![t] + body.push(bottom) =~= body.push(bottom).insert(0, t));
        lemma_filter_insert(body.push(bottom), 0, t, p);
    }
}

/// Opening a monitor for workspaces of the active activity keeps the layout coherent, changes no
/// work, and adds one view.
pub proof fn lemma_open_monitor(
    s: LayoutModel,
    m: Monitor,
    body: Seq<WorkspaceId>,
    remembered: Option<WorkspaceId>,
)
    requires
        s.coherent(),
        s.parked.len() == 0,
        m.output.id.0 != 0,
        s.open_monitor(m, body, remembered).fits(),
        body.no_duplicates(),
        forall|x: WorkspaceId| #[trigger] body.contains(x) ==> s.pool.member(x, s.acts.active),
        s.view_of(s.acts.active, m.output.id) is None,
    ensures
        s.open_monitor(m, body, remembered).coherent(),
        grows(s.pool, s.open_monitor(m, body, remembered).pool),
        same_work(s.pool, s.open_monitor(m, body, remembered).pool, m.output),
        s.open_monitor(m, body, remembered).acts.ids() == s.acts.ids(),
        s.open_monitor(m, body, remembered).view_of(s.acts.active, m.output.id) == Some(
            opening_view(s.pool, m, s.acts.active, body, remembered),
        ),
        opening_view(s.pool, m, s.acts.active, body, remembered).wf(),
        forall|x: WorkspaceId| #[trigger]
            opening_view(s.pool, m, s.acts.active, body, remembered).ids.contains(x)
                ==> body.contains(x) || !s.pool.has(x),
        opening_view(s.pool, m, s.acts.active, body, remembered).ids.filter(
            worth_keeping(s.pool),
        ) == body.filter(worth_keeping(s.pool)),
        forall|a: ActivityId, b: OutputId|
            a != s.acts.active || b != m.output.id ==> #[trigger] s.open_monitor(
                m,
                body,
                remembered,
            ).view_of(a, b) == s.view_of(a, b),
{
    let out = m.output.id;
    let act = s.acts.active;
    let p0 = s.pool.bind_all(body, m.output);
    lemma_bind_all_alike(s.pool, body, m.output);
    lemma_alike(s.pool, p0);
    lemma_alike_coherent(s, p0);
    lemma_bind_all_work(s.pool, body, m.output, m.output);
    let s0 = LayoutModel { pool: p0, ..s };
    let bottom = p0.next_id();
    lemma_mint(s0, out, act);
    lemma_mint_work(s0, out, act, m.output);
    let p1 = p0.mint(out, act);
    let s1 = LayoutModel { pool: p1, ..s };
    lemma_same_work_trans(s.pool, p0, p1, m.output);
    let framed_too = m.empty_workspace_above_first && body.len() > 0;
    let top = if framed_too {
        Some(p1.next_id())
    } else {
        None
    };
    if framed_too {
        lemma_mint(s1, out, act);
        lemma_mint_work(s1, out, act, m.output);
        lemma_same_work_trans(s.pool, p1, p1.mint(out, act), m.output);
    }
    let p2 = if framed_too {
        p1.mint(out, act)
    } else {
        p1
    };
    let s2 = LayoutModel { pool: p2, ..s };
    assert(s2.coherent());
    assert(!body.contains(bottom)) by {
        if body.contains(bottom) {
            assert(s.pool.member(bottom, act));
            assert(p0.member(bottom, act));
        }
    }
    assert(top is Some ==> top.unwrap() != bottom && !body.contains(top.unwrap())) by {
        if top is Some && body.contains(top.unwrap()) {
            assert(s.pool.member(top.unwrap(), act));
            assert(p0.member(top.unwrap(), act));
            assert(p1.member(top.unwrap(), act));
        }
    }
    lemma_framed(body, bottom, top);
    let v = framed(body, bottom, top);
    let w = opening_view(s.pool, m, act, body, remembered);
    assert(w.ids == v.ids);
    assert(view_ok(p2, act, w)) by {
        assert forall|x: WorkspaceId| #[trigger] w.ids.contains(x) implies p2.member(x, act) by {
            assert(v.ids.contains(x));
            if body.contains(x) {
                assert(s.pool.member(x, act));
                assert(p0.member(x, act));
                assert(p1.member(x, act));
            } else if x == bottom {
                assert(p1.member(x, act));
            }
        }
        if remembered is Some && body.contains(remembered.unwrap()) {
            assert(v.ids.contains(remembered.unwrap()));
        }
    }
    assert(!s.pool.busy(bottom)) by {
        assert(p0.busy(bottom) == s.pool.busy(bottom));
    }
    assert(top is Some ==> !s.pool.busy(top.unwrap())) by {
        if top is Some {
            assert(p1.busy(top.unwrap()) == s.pool.busy(top.unwrap()));
        }
    }
    lemma_framed_filter(body, bottom, top, worth_keeping(s.pool));
    lemma_add_view_coherent(s2, act, out, w);
    let t = s.open_monitor(m, body, remembered);
    let s3 = LayoutModel { acts: s2.acts.add_view(act, out, w), ..s2 };
    assert(t == LayoutModel { monitors: s.monitors.push(m), ..s3 });
    crate::materialize::lemma_add_view_ids(s.acts, act, out, w);
    assert forall|x: WorkspaceId| #[trigger] w.ids.contains(x) implies body.contains(x)
        || !s.pool.has(x) by {
        assert(v.ids.contains(x));
        if x == bottom {
            assert(p0.pos(x) == s.pool.pos(x));
        } else if top == Some(x) {
            assert(p0.pos(x) == s.pool.pos(x));
            if s.pool.has(x) {
                assert(p0.has(x));
                assert(p1.has(x));
            }
        }
    }
    lemma_act(s.acts, act);
    lemma_add_view_views(s.acts, act, out, w);
    assert forall|a: ActivityId, b: OutputId| a != act || b != out implies #[trigger] t.view_of(a, b)
        == s.view_of(a, b) by {
        assert(s.acts.add_view(act, out, w).view_of(a, b) == s.acts.view_of(a, b));
    }
}

/// What views there are after one was added where there was none.
pub proof fn lemma_add_view_views(s: ActivitiesModel, act: ActivityId, out: OutputId, v: ViewModel)
    requires
        s.has(act),
        s.view_of(act, out) is None,
    ensures
        s.add_view(act, out, v).view_of(act, out) == Some(v),
        forall|a: ActivityId, b: OutputId|
            a != act || b != out ==> #[trigger] s.add_view(act, out, v).view_of(a, b) == s.view_of(
                a,
                b,
            ),
{
    lemma_act(s, act);
    let a = s.get(act).unwrap();
    lemma_get_put_act(s, act, a.add_view(out, v));
    lemma_view_after_add(a, out, v);
    let t = s.add_view(act, out, v);
    assert forall|x: ActivityId, b: OutputId| x != act || b != out implies #[trigger] t.view_of(x, b)
        == s.view_of(x, b) by {
        if x != act {
            assert(t.get(x) == s.get(x));
        } else {
            assert(a.add_view(out, v).view_of(b) == a.view_of(b));
        }
    }
}

/// Stripping workspaces that a filter does not pick goes unnoticed by it.
pub proof fn lemma_strip_filter(
    v: ViewModel,
    ids: Seq<WorkspaceId>,
    p: spec_fn(WorkspaceId) -> bool,
)
    requires
        forall|i: int| 0 <= i < ids.len() ==> !(#[trigger] p(ids[i])),
    ensures
        strip(v, ids).ids.filter(p) == v.ids.filter(p),
    decreases ids.len(),
{
    if ids.len() > 0 {
        let rest = ids.drop_last();
        assert forall|i: int| 0 <= i < rest.len() implies !(#[trigger] p(rest[i])) by {
            assert(!p(ids[i]));
        }
        lemma_strip_filter(v, rest, p);
        let u = strip(v, rest);
        lemma_find_from(u.ids, equal_to(ids.last()), 0);
        if let Some(k) = u.position_of(ids.last()) {
            assert(!p(ids[ids.len() - 1]));
            assert(u.ids[k] == ids.last());
            lemma_filter_remove(u.ids, k, p);
        }
    }
}

/// What views there are once one was opened.
pub proof fn lemma_open_view_exact(s: LayoutModel, mon: int, act: ActivityId)
    requires
        s.acts.has(act),
        s.view_of(act, s.monitors[mon].output.id) is None,
    ensures
        ({
            let m = s.monitors[mon];
            let out = m.output.id;
            let body = tagged(s.pool, act, out);
            let bottom = s.pool.next_id();
            let top = if body.len() > 0 && m.empty_workspace_above_first {
                Some(s.pool.mint(out, act).next_id())
            } else {
                None
            };
            let t = s.open_view(mon, act);
            &&& t.view_of(act, out) == Some(framed(body, bottom, top))
            &&& t.pool == if top is Some {
                s.pool.mint(out, act).mint(out, act)
            } else {
                s.pool.mint(out, act)
            }
            &&& forall|b: OutputId|
                b != out ==> #[trigger] t.view_of(act, b) == match s.view_of(act, b) {
                    Some(v) => if body.len() > 0 {
                        Some(strip(v, body))
                    } else {
                        Some(v)
                    },
                    None => None,
                }
            &&& forall|a: ActivityId, b: OutputId|
                a != act ==> #[trigger] t.view_of(a, b) == s.view_of(a, b)
        }),
{
    let m = s.monitors[mon];
    let out = m.output.id;
    let body = tagged(s.pool, act, out);
    let bottom = s.pool.next_id();
    let top = if body.len() > 0 && m.empty_workspace_above_first {
        Some(s.pool.mint(out, act).next_id())
    } else {
        None
    };
    let v = framed(body, bottom, top);
    let a = s.acts.get(act).unwrap();
    lemma_act(s.acts, act);
    let b = if body.len() > 0 {
        ActivityModel { views: strip_others(a.views, out, body), ..a }
    } else {
        a
    };
    let base = if body.len() > 0 {
        s.acts.put(act, b)
    } else {
        s.acts
    };
    lemma_get_put_act(s.acts, act, b);
    assert(base.get(act) == Some(b));
    assert forall|c: OutputId| #[trigger] b.view_of(c) == match a.view_of(c) {
        Some(w) => if body.len() > 0 && c != out {
            Some(strip(w, body))
        } else {
            Some(w)
        },
        None => None,
    } by {
        lemma_find_from(a.views, keyed(c), 0);
        lemma_find_from(b.views, keyed(c), 0);
        if let Some(i) = a.view_pos(c) {
            assert(b.views[i].output == c);
            let j = b.view_pos(c).unwrap();
            assert(a.views[j].output == b.views[j].output);
            assert(i == j);
        } else if let Some(j) = b.view_pos(c) {
            assert(a.views[j].output == b.views[j].output);
        }
    }
    assert(base.has(act));
    assert(b.view_of(out) is None);
    assert(base.view_of(act, out) is None);
    lemma_add_view_views(base, act, out, v);
    let t = s.open_view(mon, act);
    assert(t.acts == base.add_view(act, out, v));
    assert forall|x: ActivityId, c: OutputId| x != act implies #[trigger] t.view_of(x, c)
        == s.view_of(x, c) by {
        assert(base.add_view(act, out, v).view_of(x, c) == base.view_of(x, c));
        if body.len() > 0 {
            assert(s.acts.put(act, b).get(x) == s.acts.get(x));
        }
    }
    assert forall|c: OutputId| c != out implies #[trigger] t.view_of(act, c) == match s.view_of(
        act,
        c,
    ) {
        Some(w) => if body.len() > 0 {
            Some(strip(w, body))
        } else {
            Some(w)
        },
        None => None,
    } by {
        assert(base.add_view(act, out, v).view_of(act, c) == base.view_of(act, c));
        assert(b.view_of(c) == base.view_of(act, c));
    }
}

/// Opening a view of an output spares what is not routed there.
pub proof fn lemma_open_view_spares(s: LayoutModel, mon: int, act: ActivityId)
    requires
        s.coherent(),
        s.acts.has(act),
        s.view_of(act, s.monitors[mon].output.id) is None,
        s.open_view(mon, act).fits(),
        s.monitors[mon].output.id.0 != 0,
    ensures
        spared(s, s.open_view(mon, act), s.monitors[mon].output),
{
    let m = s.monitors[mon];
    let o = m.output;
    let out = o.id;
    let body = tagged(s.pool, act, out);
    lemma_open_view_exact(s, mon, act);
    let t = s.open_view(mon, act);
    lemma_mint(s, out, act);
    lemma_mint_work(s, out, act, o);
    let p1 = s.pool.mint(out, act);
    let s1 = LayoutModel { pool: p1, ..s };
    let top = if body.len() > 0 && m.empty_workspace_above_first {
        Some(p1.next_id())
    } else {
        None
    };
    if top is Some {
        lemma_mint(s1, out, act);
        lemma_mint_work(s1, out, act, o);
        lemma_same_work_trans(s.pool, p1, t.pool, o);
    }
    assert(same_work(s.pool, t.pool, o));
    let e = elsewhere(s.pool, o);
    lemma_same_elsewhere(s.pool, t.pool, o);
    lemma_tagged(s.pool, act, out);
    assert forall|i: int| 0 <= i < body.len() implies !(#[trigger] e(body[i])) by {
        assert(body.contains(body[i]));
        assert(s.pool.get(body[i]).unwrap().output_id == Some(out));
    }
    let bottom = s.pool.next_id();
    assert(!s.pool.busy(bottom));
    assert(top is Some ==> !s.pool.busy(top.unwrap())) by {
        if top is Some {
            assert(p1.busy(top.unwrap()) == s.pool.busy(top.unwrap()));
        }
    }
    lemma_framed_filter(body, bottom, top, e);
    lemma_filter_none(body, e);
    assert forall|a: ActivityId, b: OutputId| rest_of(t.pool, #[trigger] t.view_of(a, b), o)
        == rest_of(s.pool, s.view_of(a, b), o) by {
        if a == act && b != out {
            if let Some(v) = s.view_of(a, b) {
                lemma_strip_filter(v, body, e);
            }
        }
    }
    crate::materialize::lemma_open_view_leads(s, mon, act);
}

impl LayoutModel {
    /// Every activity has a view of every monitor but perhaps the last.
    pub open spec fn nearly_complete(self) -> bool {
        forall|a: ActivityId, k: int| #![trigger self.view_of(a, self.monitors[k].output.id)]
            self.acts.has(a) && 0 <= k < self.monitors.len() - 1 ==> self.view_of(
                a,
                self.monitors[k].output.id,
            ) is Some
    }
}

/// Opening the missing views of the last monitor spares what is not routed there.
pub proof fn lemma_ensure_row_spares(s: LayoutModel, act: ActivityId, n: int)
    requires
        s.coherent(),
        s.acts.has(act),
        s.monitors.len() > 0,
        n <= s.monitors.len(),
        s.monitors.last().output.id.0 != 0,
        s.nearly_complete(),
        s.ensure_row(act, n).fits(),
    ensures
        spared(s, s.ensure_row(act, n), s.monitors.last().output),
        s.ensure_row(act, n).nearly_complete(),
        s.ensure_row(act, n).coherent(),
    decreases n,
{
    let o = s.monitors.last().output;
    if n <= 0 {
        lemma_calm_still(s, s, o);
        lemma_calm_spares(s, s, o);
    } else {
        crate::materialize::lemma_ensure_row_leads(s, act, n - 1, n);
        crate::materialize::lemma_ensure_row_leads(s, act, n - 1, n - 1);
        lemma_ensure_row_spares(s, act, n - 1);
        let t = s.ensure_row(act, n - 1);
        let u = s.ensure_row(act, n);
        assert(s.leads_to(t));
        lemma_same_ids(s.acts, t.acts);
        if t.view_of(act, t.monitors[n - 1].output.id) is None {
            assert(n == t.monitors.len());
            assert(t.monitors[n - 1].output == s.monitors[n - 1].output);
            lemma_open_view(t, n - 1, act);
            lemma_open_view_spares(t, n - 1, act);
            lemma_open_view_views(t, n - 1, act);
            crate::materialize::lemma_open_view_leads(t, n - 1, act);
            lemma_spared_trans(s, t, u, o);
            lemma_same_ids(t.acts, u.acts);
            assert(u.nearly_complete()) by {
                assert forall|a: ActivityId, k: int|
                    u.acts.has(a) && 0 <= k < u.monitors.len() - 1 implies #[trigger] u.view_of(
                    a,
                    u.monitors[k].output.id,
                ) is Some by {
                    assert(t.view_of(a, t.monitors[k].output.id) is Some);
                    assert(u.monitors[k].output == t.monitors[k].output);
                    if a != act {
                        assert(u.acts.get(a) == t.acts.get(a));
                    }
                }
            }
        }
    }
}

/// Opening the missing views of the last monitor spares what is not routed there.
pub proof fn lemma_ensure_rows_spares(s: LayoutModel, n: int)
    requires
        s.coherent(),
        n <= s.acts.list.len(),
        s.monitors.len() > 0,
        s.monitors.last().output.id.0 != 0,
        s.nearly_complete(),
        s.ensure_rows(n).fits(),
    ensures
        spared(s, s.ensure_rows(n), s.monitors.last().output),
        s.ensure_rows(n).nearly_complete(),
        s.ensure_rows(n).coherent(),
    decreases n,
{
    let o = s.monitors.last().output;
    if n <= 0 {
        lemma_calm_still(s, s, o);
        lemma_calm_spares(s, s, o);
    } else {
        crate::materialize::lemma_ensure_rows_leads(s, n - 1, n);
        crate::materialize::lemma_ensure_rows_leads(s, n - 1, n - 1);
        lemma_ensure_rows_spares(s, n - 1);
        let t = s.ensure_rows(n - 1);
        let act = s.acts.list[n - 1].id;
        lemma_act_pos(s.acts, n - 1);
        lemma_same_ids(s.acts, t.acts);
        assert(s.acts.has(act));
        assert(t.monitors.last().output == s.monitors[s.monitors.len() - 1].output);
        lemma_ensure_row_spares(t, act, s.monitors.len() as int);
        lemma_spared_trans(s, t, s.ensure_rows(n), o);
    }
}

/// In a whole layout every activity has a view of every output that is connected, and of no other,
/// and shows no workspace twice.
pub proof fn lemma_whole_views(s: LayoutModel)
    requires
        s.whole(),
    ensures
        forall|a: ActivityId, k: int| #![trigger s.view_of(a, s.monitors[k].output.id)]
            s.acts.has(a) && 0 <= k < s.monitors.len() ==> s.view_of(a, s.monitors[k].output.id)
                is Some,
        forall|a: ActivityId, b: OutputId| #[trigger]
            s.view_of(a, b) is Some ==> s.monitor_pos(b) is Some,
        forall|k: int| 0 <= k < s.monitors.len() ==> #[trigger] s.apart_from(k),
{
    assert forall|a: ActivityId, k: int| #![trigger s.view_of(a, s.monitors[k].output.id)]
        s.acts.has(a) && 0 <= k < s.monitors.len() implies s.view_of(a, s.monitors[k].output.id)
        is Some by {
        crate::coherence::lemma_act(s.acts, a);
        let i = s.acts.pos(a).unwrap();
        assert(s.view_of(s.acts.list[i].id, s.monitors[k].output.id) is Some);
    }
    assert forall|k: int| 0 <= k < s.monitors.len() implies #[trigger] s.apart_from(k) by {
        let out = s.monitors[k].output.id;
        assert forall|b: OutputId, x: WorkspaceId|
            b != out && #[trigger] s.shows_on(s.acts.active, b, x) implies !s.shows_on(
            s.acts.active,
            out,
            x,
        ) by {}
    }
}

impl LayoutModel {
    /// Every activity has a view of every monitor, and none shows anything on output `out`, which
    /// no monitor is for.
    pub open spec fn open_for(self, out: OutputId) -> bool {
        &&& forall|a: ActivityId, k: int| #![trigger self.view_of(a, self.monitors[k].output.id)]
            self.acts.has(a) && 0 <= k < self.monitors.len() ==> self.view_of(
                a,
                self.monitors[k].output.id,
            ) is Some
        &&& forall|a: ActivityId| #[trigger] self.view_of(a, out) is None
        &&& forall|k: int|
            0 <= k < self.monitors.len() ==> (#[trigger] self.monitors[k]).output.id != out
    }
}

impl LayoutModel {
    /// What the primary monitor shows to the active activity.
    pub open spec fn shown_first(self) -> Seq<WorkspaceId> {
        match self.active_view(self.monitors[self.primary].output.id) {
            Some(v) => v.ids,
            None => Seq::empty(),
        }
    }

    /// The primary monitor without what moves to `output`.
    pub open spec fn peeled_off(self, output: Output) -> LayoutModel {
        self.peel_primary(output).forget(output.connector)
    }

    /// Monitor `m` connected, showing what moves there to the active activity.
    pub open spec fn attached(self, m: Monitor) -> LayoutModel {
        self.peeled_off(m.output).open_monitor(
            m,
            self.shown_first().filter(coming_along(self.pool, m.output)),
            crate::outputs::recalled(self.remembered, m.output.connector),
        )
    }

    /// The layout is ready for `output` to be connected beside others.
    pub open spec fn ready_for(self, output: Output) -> bool {
        &&& self.coherent()
        &&& 0 <= self.primary < self.monitors.len()
        &&& self.apart_from(self.primary)
        &&& output.id.0 != 0
        &&& self.open_for(output.id)
        &&& exists|i: int|
            0 <= i < self.shown_first().len() && !bound_for(
                self.pool,
                #[trigger] self.shown_first()[i],
                output,
            )
    }
}

/// The steps of connecting one more output.
pub proof fn lemma_further_steps(s: LayoutModel, m: Monitor)
    requires
        0 <= s.primary < s.monitors.len(),
    ensures
        ({
            let doomed = s.shown_first().filter(left_behind(s.pool, m.output));
            let t = s.attached(m).destroy_all(doomed);
            &&& s.add_further_output(m) == t.ensure_all()
            &&& s.leads_to(s.peel_primary(m.output))
            &&& s.peeled_off(m.output).before(s.attached(m))
            &&& s.attached(m).leads_to(t)
            &&& t.leads_to(s.add_further_output(m))
        }),
{
    let o = m.output;
    let body = s.shown_first().filter(coming_along(s.pool, o));
    let doomed = s.shown_first().filter(left_behind(s.pool, o));
    let s3 = s.attached(m);
    let s4 = s3.destroy_all(doomed);
    crate::connect::lemma_peel_primary_leads(s, o);
    crate::materialize::lemma_ensure_rows_leads(s4, 0, s4.acts.list.len() as int);
    crate::reclaim::lemma_destroy_all_leads(s3, doomed);
    crate::outputs::lemma_open_monitor_before(
        s.peeled_off(o),
        m,
        body,
        crate::outputs::recalled(s.remembered, o.connector),
    );
}

/// What the primary monitor shows of what moves to a new output.
pub proof fn lemma_ready(s: LayoutModel, o: Output)
    requires
        s.ready_for(o),
    ensures
        ({
            let act = s.acts.active;
            let home = s.monitors[s.primary].output.id;
            let t = s.peel_primary(o);
            let body = s.shown_first().filter(coming_along(s.pool, o));
            &&& s.active_view(home) is Some
            &&& s.shown_first() == s.active_view(home).unwrap().ids
            &&& exists|i: int|
                0 <= i < s.active_view(home).unwrap().ids.len() && !bound_for(
                    s.pool,
                    #[trigger] s.active_view(home).unwrap().ids[i],
                    o,
                )
            &&& home != o.id
            &&& t.coherent()
            &&& s.leads_to(t)
            &&& t.view_of(act, o.id) is None
            &&& body.no_duplicates()
            &&& forall|x: WorkspaceId| #[trigger]
                body.contains(x) ==> t.pool.member(x, act) && t.pool.busy(x) && bound_for(
                    t.pool,
                    x,
                    o,
                )
        }),
{
    let act = s.acts.active;
    let home = s.monitors[s.primary].output.id;
    assert(s.acts.has(act));
    assert(s.view_of(act, s.monitors[s.primary].output.id) is Some);
    let v = s.active_view(home).unwrap();
    assert(s.shown_first() == v.ids);
    let i = choose|i: int|
        0 <= i < s.shown_first().len() && !bound_for(s.pool, #[trigger] s.shown_first()[i], o);
    assert(!bound_for(s.pool, v.ids[i], o));
    lemma_view_is_ok(s, act, home);
    let body = v.ids.filter(coming_along(s.pool, o));
    lemma_filter(v.ids, coming_along(s.pool, o));
    let t = s.peel_primary(o);
    lemma_peel_primary(s, o);
    lemma_peel_primary_views(s, o);
    crate::connect::lemma_peel_primary_leads(s, o);
    assert(t.view_of(act, o.id) == s.view_of(act, o.id));
    assert forall|x: WorkspaceId| #[trigger] body.contains(x) implies t.pool.member(x, act)
        && t.pool.busy(x) && bound_for(t.pool, x, o) by {
        assert(s.pool.member(x, act));
        assert(s.pool.busy(x));
        assert(t.pool.busy(x) == s.pool.busy(x));
    }
}

/// What there is once a further monitor is there.
pub proof fn lemma_attached(s: LayoutModel, m: Monitor)
    requires
        s.ready_for(m.output),
        s.attached(m).fits(),
    ensures
        ({
            let o = m.output;
            let act = s.acts.active;
            let body = s.shown_first().filter(coming_along(s.pool, o));
            let t = s.attached(m);
            let p = s.peel_primary(o);
            &&& t.coherent()
            &&& t.acts.active == act
            &&& t.acts.ids() == s.acts.ids()
            &&& t.parked.len() == 0
            &&& t.monitors.len() == s.monitors.len() + 1
            &&& t.monitors.last() == m
            &&& forall|k: int|
                0 <= k < s.monitors.len() ==> (#[trigger] t.monitors[k]).output
                    == s.monitors[k].output
            &&& grows(p.pool, t.pool)
            &&& t.view_of(act, o.id) == Some(
                opening_view(
                    p.pool,
                    m,
                    act,
                    body,
                    crate::outputs::recalled(s.remembered, o.connector),
                ),
            )
            &&& forall|a: ActivityId, b: OutputId|
                a != act || b != o.id ==> #[trigger] t.view_of(a, b) == p.view_of(a, b)
            &&& same_work(p.pool, t.pool, o)
            &&& view_core(t.pool, t.view_of(act, o.id)) == busy_of(t.pool, body)
        }),
{
    let o = m.output;
    let act = s.acts.active;
    let body = s.shown_first().filter(coming_along(s.pool, o));
    let remembered = crate::outputs::recalled(s.remembered, o.connector);
    lemma_ready(s, o);
    let p = s.peel_primary(o);
    let s2 = s.peeled_off(o);
    let t = s.attached(m);
    assert(s2.pool == p.pool && s2.acts == p.acts);
    assert(s2.coherent());
    assert(s2.view_of(act, o.id) is None);
    lemma_open_monitor(s2, m, body, remembered);
    lemma_same_core(s2.pool, t.pool, o);
    assert forall|k: int| 0 <= k < s.monitors.len() implies (#[trigger] t.monitors[k]).output
        == s.monitors[k].output by {
        assert(t.monitors[k] == p.monitors[k]);
        assert(p.monitors[k].output == s.monitors[k].output);
    }
    assert forall|a: ActivityId, b: OutputId| a != act || b != o.id implies #[trigger] t.view_of(
        a,
        b,
    ) == p.view_of(a, b) by {
        assert(t.view_of(a, b) == s2.view_of(a, b));
    }
}

/// Attaching a further monitor spares what is not routed there.
pub proof fn lemma_attached_spares(s: LayoutModel, m: Monitor)
    requires
        s.ready_for(m.output),
        s.attached(m).fits(),
    ensures
        spared(s, s.attached(m), m.output),
{
    let o = m.output;
    let act = s.acts.active;
    let body = s.shown_first().filter(coming_along(s.pool, o));
    lemma_ready(s, o);
    lemma_attached(s, m);
    lemma_peel_primary(s, o);
    let p = s.peel_primary(o);
    let t = s.attached(m);
    lemma_same_elsewhere(p.pool, t.pool, o);
    let e = elsewhere(t.pool, o);
    lemma_rest_of_core(t.pool, t.view_of(act, o.id), o);
    lemma_filter_filter(body, worth_keeping(t.pool), e);
    assert forall|i: int| 0 <= i < body.len() implies !(#[trigger] e(body[i])) by {
        assert(body.contains(body[i]));
        assert(elsewhere(p.pool, o)(body[i]) == e(body[i]));
    }
    lemma_filter_none(body, e);
    assert(spared(p, t, o)) by {
        assert forall|a: ActivityId, b: OutputId| rest_of(t.pool, #[trigger] t.view_of(a, b), o)
            == rest_of(p.pool, p.view_of(a, b), o) by {
            if a != act || b != o.id {
                assert(t.view_of(a, b) == p.view_of(a, b));
            }
        }
    }
    lemma_spared_trans(s, p, t, o);
}

/// Connecting one more output spares what is not routed there.
pub proof fn lemma_further_output_spares(s: LayoutModel, m: Monitor)
    requires
        s.ready_for(m.output),
        s.add_further_output(m).fits(),
    ensures
        spared(s, s.add_further_output(m), m.output),
        s.add_further_output(m).coherent(),
{
    let o = m.output;
    let out = o.id;
    let act = s.acts.active;
    let home = s.monitors[s.primary].output.id;
    lemma_further_steps(s, m);
    lemma_ready(s, o);
    lemma_attached(s, m);
    lemma_attached_spares(s, m);
    let v = s.active_view(home).unwrap();
    let doomed = v.ids.filter(left_behind(s.pool, o));
    lemma_filter(v.ids, left_behind(s.pool, o));
    let s3 = s.attached(m);
    let s4 = s3.destroy_all(doomed);
    let t = s4.ensure_all();
    assert forall|x: WorkspaceId| #[trigger] doomed.contains(x) implies !s3.pool.busy(x) by {
        assert(s3.pool.busy(x) == s.pool.busy(x));
    }
    assert forall|i: int| 0 <= i < doomed.len() implies !s3.pool.busy(#[trigger] doomed[i]) && (
    s3.pool.shared(doomed[i]) || !s3.parked.contains(doomed[i])) by {
        assert(doomed.contains(doomed[i]));
    }
    lemma_destroy_all_calm(s3, doomed, o);
    lemma_calm_spares(s3, s4, o);
    lemma_spared_trans(s, s3, s4, o);
    lemma_destroy_all(s3, doomed);
    let n = s.monitors.len() as int;
    assert(s4.monitors.last().output == o) by {
        assert(s3.monitors[n].output == s4.monitors[n].output);
    }
    lemma_same_ids(s.acts, s4.acts);
    assert(s4.nearly_complete()) by {
        assert forall|a: ActivityId, k: int| #![trigger s4.view_of(a, s4.monitors[k].output.id)]
            s4.acts.has(a) && 0 <= k < s4.monitors.len() - 1 implies s4.view_of(
            a,
            s4.monitors[k].output.id,
        ) is Some by {
            let b = s.monitors[k].output.id;
            assert(s3.monitors[k].output == s4.monitors[k].output);
            assert(s4.monitors[k].output.id == b);
            assert(s.acts.has(a));
            assert(s.view_of(a, s.monitors[k].output.id) is Some);
            assert(b != out);
            lemma_untouched(s, m, doomed, a, b);
        }
    }
    lemma_ensure_rows_spares(s4, s4.acts.list.len() as int);
    lemma_spared_trans(s, s4, t, o);
}

/// Destroying the empty workspaces that are routed to a new monitor touches no other view.
pub proof fn lemma_untouched(
    s: LayoutModel,
    m: Monitor,
    doomed: Seq<WorkspaceId>,
    a: ActivityId,
    b: OutputId,
)
    requires
        s.ready_for(m.output),
        s.attached(m).fits(),
        doomed == s.shown_first().filter(left_behind(s.pool, m.output)),
        b != m.output.id,
        s.view_of(a, b) is Some,
    ensures
        s.attached(m).destroy_all(doomed).view_of(a, b) == s.peel_primary(m.output).view_of(a, b),
        s.peel_primary(m.output).view_of(a, b) is Some,
{
    let o = m.output;
    let act = s.acts.active;
    let home = s.monitors[s.primary].output.id;
    lemma_ready(s, o);
    lemma_attached(s, m);
    let v = s.active_view(home).unwrap();
    lemma_filter(v.ids, left_behind(s.pool, o));
    lemma_peel_primary(s, o);
    lemma_peel_primary_views(s, o);
    lemma_view_is_ok(s, act, home);
    let s1 = s.peel_primary(o);
    let s3 = s.attached(m);
    lemma_view_is_ok(s3, a, b);
    assert(s3.view_of(a, b) == s1.view_of(a, b));
    if a != act || b != home {
        assert(s1.view_of(a, b) == s.view_of(a, b));
    }
    let y = s3.view_of(a, b).unwrap();
    assert forall|x: WorkspaceId| #[trigger] y.ids.contains(x) implies !doomed.contains(x)
        || s3.pool.shared(x) by {
        if doomed.contains(x) {
            assert(v.ids.contains(x));
            if a == act && b == home {
                assert(!bound_for(s.pool, x, o));
            } else if a == act {
                assert(s.shows_on(act, b, x));
                assert(s.shows_on(act, home, x));
            } else {
                lemma_view_is_ok(s1, a, b);
                assert(s1.pool.member(x, a));
                assert(s.pool.member(x, act));
                assert(s1.pool.member(x, act));
                assert(s3.pool.member(x, a));
                assert(s3.pool.member(x, act));
                lemma_two_members(s3.pool, x, a, act);
            }
        }
    }
    lemma_destroy_all_view(s3, doomed, a, b);
}

/// A workspace of two activities is shared.
pub proof fn lemma_two_members(pool: PoolModel, x: WorkspaceId, a: ActivityId, b: ActivityId)
    requires
        a != b,
        pool.member(x, a),
        pool.member(x, b),
    ensures
        pool.shared(x),
{
    let l = pool.get(x).unwrap().activities;
    let i = choose|i: int| 0 <= i < l.len() && l[i] == a;
    let j = choose|j: int| 0 <= j < l.len() && l[j] == b;
}

} // verus!
