//! Taking an output out, step by step: no work is lost.

use vstd::prelude::*;

use crate::activity::ActivityModel;
use crate::coherence::{
    activity_ok, alike, lemma_act, lemma_act_pos, lemma_alike, lemma_alike_coherent,
    lemma_drop_view_coherent, lemma_drop_view_ok, lemma_get, lemma_get_put, lemma_same_ids,
    lemma_view_is_ok, lemma_with_view_coherent, view_ok,
};
use crate::connect::bound_for;
use crate::connecting::{
    lemma_clean_up_views, lemma_destroy_all_view, lemma_whole_views, lemma_two_members,
};
use crate::cores::{
    apart, busy_of, calm, kept_view, lemma_bind_all_work, lemma_bind_work, lemma_calm_still,
    lemma_calm_trans, lemma_clean_up_calm, lemma_destroy_all_calm, lemma_filter_filter,
    lemma_filter_none, lemma_mint_into_calm, lemma_same_core, lemma_same_work_trans,
    lemma_unbind_all_work, lemma_unbind_work, same_work, view_core,
};
use crate::disconnect::{firsts, index_after, movers, noted, residents};
use crate::ids::{ActivityId, OutputId, WorkspaceId};
use crate::keeping::{lemma_destroy_all, lemma_mint_into};
use crate::keeping_outputs::{
    lemma_bind_alike, lemma_bind_all_alike, lemma_drop_views, lemma_firsts, lemma_migrate_all,
    lemma_residents, lemma_settle, lemma_spliced, lemma_unbind_all_alike,
};
use crate::keeping_views::{lemma_clean_up, lemma_filter, lemma_mint, lemma_swept};
use crate::layout::LayoutModel;
use crate::outputs::{idle, worth_keeping};
use crate::pool::PoolModel;
use crate::search::{equal_to, lemma_find_from};
use crate::transfer::{lemma_view_after_set, lemma_view_after_set_other, spliced};
use crate::view::ViewModel;
use crate::workspace::Output;

verus! {

/// Nothing is routed to `o` in `q` that was not in `p`.
pub open spec fn no_new_routes(p: PoolModel, q: PoolModel, o: Output) -> bool {
    forall|x: WorkspaceId| #[trigger] bound_for(q, x, o) ==> bound_for(p, x, o)
}

/// Unbinding routes nothing anew.
pub proof fn lemma_unbind_all_routes(p: PoolModel, ids: Seq<WorkspaceId>, o: Output)
    ensures
        no_new_routes(p, p.unbind_all(ids), o),
    decreases ids.len(),
{
    if ids.len() > 0 {
        let q = p.unbind_all(ids.drop_last());
        lemma_unbind_all_routes(p, ids.drop_last(), o);
        let id = ids.last();
        lemma_get(q, id);
        if let Some(w) = q.get(id) {
            lemma_get_put(q, id, w.unbind());
            let r = q.unbind(id);
            assert forall|x: WorkspaceId| #[trigger] bound_for(r, x, o) implies bound_for(
                p,
                x,
                o,
            ) by {
                assert(x != id ==> r.get(x) == q.get(x));
                assert(bound_for(q, x, o));
            }
        }
    }
}

/// Binding a workspace to another output routes nothing anew.
pub proof fn lemma_bind_routes(p: PoolModel, id: WorkspaceId, output: Output, o: Output)
    requires
        apart(output, o),
    ensures
        no_new_routes(p, p.bind(id, output), o),
{
    lemma_get(p, id);
    if let Some(w) = p.get(id) {
        lemma_get_put(p, id, w.bind(output));
        let r = p.bind(id, output);
        assert forall|x: WorkspaceId| #[trigger] bound_for(r, x, o) implies bound_for(p, x, o) by {
            assert(x != id ==> r.get(x) == p.get(x));
        }
    }
}

/// Binding workspaces to another output routes nothing anew.
pub proof fn lemma_bind_all_routes(p: PoolModel, ids: Seq<WorkspaceId>, output: Output, o: Output)
    requires
        apart(output, o),
    ensures
        no_new_routes(p, p.bind_all(ids, output), o),
    decreases ids.len(),
{
    if ids.len() > 0 {
        let q = p.bind_all(ids.drop_last(), output);
        lemma_bind_all_routes(p, ids.drop_last(), output, o);
        lemma_bind_routes(q, ids.last(), output, o);
        assert forall|x: WorkspaceId| #[trigger] bound_for(
            p.bind_all(ids, output),
            x,
            o,
        ) implies bound_for(p, x, o) by {
            assert(bound_for(q, x, o));
        }
    }
}

/// The first element stays first if it is picked.
pub proof fn lemma_filter_first(s: Seq<WorkspaceId>, p: spec_fn(WorkspaceId) -> bool)
    requires
        s.len() > 0,
        p(s[0]),
    ensures
        s.filter(p).len() > 0,
        s.filter(p)[0] == s[0],
    decreases s.len(),
{
    reveal(Seq::filter);
    let rest = s.drop_last();
    if s.len() > 1 {
        assert(rest[0] == s[0]);
        lemma_filter_first(rest, p);
    } else {
        assert(rest =~= Seq::<WorkspaceId>::empty());
        assert(s.last() == s[0]);
    }
}

/// Sweeping leaves the first workspace of a view that begins with an empty one.
pub proof fn lemma_clean_up_first(s: LayoutModel, mon: int)
    requires
        s.coherent(),
        0 <= mon < s.monitors.len(),
        s.monitors[mon].empty_workspace_above_first,
    ensures
        match s.active_view(s.monitors[mon].output.id) {
            Some(v) => match s.clean_up(mon).view_of(s.acts.active, s.monitors[mon].output.id) {
                Some(w) => w.ids[0] == v.ids[0],
                None => false,
            },
            None => true,
        },
{
    let m = s.monitors[mon];
    if let Some(v) = s.active_view(m.output.id) {
        lemma_view_is_ok(s, s.acts.active, m.output.id);
        lemma_filter_first(v.ids, crate::reclaim::kept(s.pool, v, true));
        lemma_cleaned(s, mon);
    }
}

/// The last element stays last if it is picked.
pub proof fn lemma_filter_last(s: Seq<WorkspaceId>, p: spec_fn(WorkspaceId) -> bool)
    requires
        s.len() > 0,
        p(s.last()),
    ensures
        s.filter(p).len() > 0,
        s.filter(p).last() == s.last(),
{
    reveal(Seq::filter);
}

/// Sweeping leaves an empty workspace at the end of a view that ends with one.
pub proof fn lemma_clean_up_last(s: LayoutModel, mon: int)
    requires
        s.coherent(),
        0 <= mon < s.monitors.len(),
    ensures
        match s.active_view(s.monitors[mon].output.id) {
            Some(v) => match s.clean_up(mon).view_of(s.acts.active, s.monitors[mon].output.id) {
                Some(w) => !s.pool.busy(v.ids.last()) ==> !s.pool.busy(w.ids.last()),
                None => false,
            },
            None => true,
        },
{
    let m = s.monitors[mon];
    let leading = m.empty_workspace_above_first;
    let act = s.acts.active;
    let out = m.output.id;
    if let Some(v) = s.active_view(out) {
        lemma_view_is_ok(s, act, out);
        lemma_filter_last(v.ids, crate::reclaim::kept(s.pool, v, leading));
        lemma_cleaned(s, mon);
    }
}

/// The view that sweeping leaves.
pub proof fn lemma_cleaned(s: LayoutModel, mon: int)
    requires
        s.coherent(),
        0 <= mon < s.monitors.len(),
        s.active_view(s.monitors[mon].output.id) is Some,
    ensures
        ({
            let m = s.monitors[mon];
            let leading = m.empty_workspace_above_first;
            let v = s.active_view(m.output.id).unwrap();
            let v1 = crate::reclaim::swept(s.pool, v, leading);
            &&& v1.wf()
            &&& s.clean_up(mon).view_of(s.acts.active, m.output.id) == Some(
                if crate::reclaim::doubled(s.pool, v1, leading) {
                    v1.remove_at(1)
                } else {
                    v1
                },
            )
        }),
{
    let m = s.monitors[mon];
    let leading = m.empty_workspace_above_first;
    let act = s.acts.active;
    let out = m.output.id;
    let v = s.active_view(out).unwrap();
    lemma_view_is_ok(s, act, out);
    let v1 = crate::reclaim::swept(s.pool, v, leading);
    lemma_swept(s.pool, v, leading);
    let gone = v.ids.filter(crate::reclaim::pruned(s.pool, v, leading));
    lemma_filter(v.ids, crate::reclaim::pruned(s.pool, v, leading));
    let two = crate::reclaim::doubled(s.pool, v1, leading);
    let v2 = if two {
        v1.remove_at(1)
    } else {
        v1
    };
    let ids = if two {
        gone.push(v1.ids[1])
    } else {
        gone
    };
    if two {
        crate::view::lemma_remove_wf(v1, 1);
        assert(v1.ids.contains(v1.ids[1]));
        assert(v2.ids =~= seq![v1.ids[0]]);
    }
    let t = s.with_view(act, out, v2);
    lemma_with_view_coherent(s, act, out, v2);
    lemma_view_after_set(s.acts, act, out, v2);
    assert forall|x: WorkspaceId| #[trigger] v2.ids.contains(x) implies !ids.contains(x) by {
        if ids.contains(x) {
            let k = choose|k: int| 0 <= k < ids.len() && ids[k] == x;
            if k < gone.len() {
                assert(gone[k] == x);
                assert(gone.contains(x));
                assert(!crate::reclaim::kept(s.pool, v, leading)(x));
                assert(v1.ids.contains(x));
            } else {
                assert(v1.ids[0] != v1.ids[1]);
            }
        }
    }
    lemma_destroy_all_view(t, ids, act, out);
    assert(s.clean_up(mon) == t.destroy_all(ids));
}

/// What appending workspaces to the active view of a monitor does.
pub proof fn lemma_append_views(s: LayoutModel, mon: int, ids: Seq<WorkspaceId>, o: Output)
    requires
        s.coherent(),
        0 <= mon < s.monitors.len(),
        s.append(mon, ids).fits(),
        s.apart_from(mon),
        apart(s.monitors[mon].output, o),
        ids.no_duplicates(),
        forall|x: WorkspaceId| #[trigger] ids.contains(x) ==> s.pool.member(x, s.acts.active),
        forall|x: WorkspaceId, b: OutputId| #[trigger]
            s.shows_on(s.acts.active, b, x) ==> !ids.contains(x),
        s.active_view(s.monitors[mon].output.id) is Some,
        s.monitors[mon].empty_workspace_above_first ==> !s.pool.busy(
            s.active_view(s.monitors[mon].output.id).unwrap().ids[0],
        ),
    ensures
        s.append(mon, ids).coherent(),
        same_work(s.pool, s.append(mon, ids).pool, o),
        no_new_routes(s.pool, s.append(mon, ids).pool, o),
        forall|x: WorkspaceId, a: ActivityId| #[trigger]
            s.append(mon, ids).pool.member(x, a) && s.pool.has(x) ==> s.pool.member(x, a),
        forall|x: WorkspaceId, a: ActivityId| #[trigger]
            s.pool.member(x, a) && s.append(mon, ids).pool.has(x) ==> s.append(
                mon,
                ids,
            ).pool.member(x, a),
        forall|a: ActivityId, b: OutputId|
            a != s.acts.active || b != s.monitors[mon].output.id ==> #[trigger] s.append(
                mon,
                ids,
            ).view_of(a, b) == s.view_of(a, b),
        kept_view(
            s.pool,
            Some(spliced(s.active_view(s.monitors[mon].output.id).unwrap(), ids)),
            s.append(mon, ids).view_of(s.acts.active, s.monitors[mon].output.id),
        ),
        match s.append(mon, ids).view_of(s.acts.active, s.monitors[mon].output.id) {
            Some(w) => {
                &&& forall|x: WorkspaceId| #[trigger]
                    w.ids.contains(x) ==> s.shows_on(
                        s.acts.active,
                        s.monitors[mon].output.id,
                        x,
                    ) || ids.contains(x) || !s.pool.has(x)
                &&& s.monitors[mon].empty_workspace_above_first ==> !s.pool.busy(w.ids[0])
                &&& !s.pool.busy(
                    s.active_view(s.monitors[mon].output.id).unwrap().ids.last(),
                ) ==> !s.pool.busy(w.ids.last())
            },
            None => false,
        },
{
    let m = s.monitors[mon];
    let out = m.output.id;
    let act = s.acts.active;
    let v = s.active_view(out).unwrap();
    lemma_view_is_ok(s, act, out);
    if ids.len() == 0 {
        let n = v.ids.len() - 1;
        assert(spliced(v, ids).ids =~= v.ids);
        lemma_calm_still(s, s, o);
    } else {
        let s1 = LayoutModel { pool: s.pool.bind_all(ids, m.output), ..s };
        lemma_bind_all_alike(s.pool, ids, m.output);
        lemma_alike_coherent(s, s1.pool);
        lemma_alike(s.pool, s1.pool);
        lemma_bind_all_work(s.pool, ids, m.output, o);
        lemma_bind_all_routes(s.pool, ids, m.output, o);
        let v1 = spliced(v, ids);
        assert forall|x: WorkspaceId| #[trigger] ids.contains(x) implies !v.ids.contains(x) by {
            if v.ids.contains(x) {
                assert(s.shows_on(act, out, x));
            }
        }
        lemma_spliced(v, ids);
        assert(view_ok(s1.pool, act, v1)) by {
            assert forall|x: WorkspaceId| #[trigger] v1.ids.contains(x) implies s1.pool.member(
                x,
                act,
            ) by {
                assert(s.pool.member(x, act));
            }
        }
        let s2 = s1.with_view(act, out, v1);
        lemma_with_view_coherent(s1, act, out, v1);
        lemma_view_after_set(s1.acts, act, out, v1);
        assert forall|a: ActivityId, b: OutputId| a != act || b != out implies #[trigger] s2.view_of(
            a,
            b,
        ) == s.view_of(a, b) by {
            lemma_view_after_set_other(s1.acts, act, out, v1, a, b);
        }
        let lead = m.empty_workspace_above_first && s2.pool.busy(v1.ids[0]);
        let s3 = if lead {
            s2.add_workspace_top(mon)
        } else {
            s2
        };
        let top = s2.pool.next_id();
        let v3 = if lead {
            v1.insert(0, top)
        } else {
            v1
        };
        crate::bookends::lemma_mint_into_leads(s2, mon, act, 0);
        if lead {
            lemma_view_after_set(s2.acts, act, out, v3);
        }
        assert(s3.view_of(act, out) == Some(v3));
        assert(s3.active_view(out) == Some(v3));
        let tail = v.active_position() == v.ids.len() - 1;
        lemma_find_from(v.ids, equal_to(v.active), 0);
        let s4 = if tail {
            s3.with_view(act, out, v3.set_active_at(v3.ids.len() - 1))
        } else {
            s3
        };
        crate::reclaim::lemma_with_view_leads(s3, act, out, v3.set_active_at(v3.ids.len() - 1));
        let s5 = s4.settle(mon);
        let t = s.append(mon, ids);
        crate::reclaim::lemma_clean_up_leads(s5, mon);
        assert(t == s5.clean_up(mon));
        if lead {
            lemma_mint(s2, out, act);
            lemma_mint_into(s2, mon, act, 0);
            lemma_mint_into_calm(s2, mon, act, 0, o);
        } else {
            lemma_calm_still(s2, s3, o);
        }
        assert(v3.ids.last() == v.ids.last());
        if tail {
            assert(v.ids[v.ids.len() - 1] == v.active) by {
                assert(v.ids.contains(v.active));
                let k = choose|k: int| 0 <= k < v.ids.len() && v.ids[k] == v.active;
            }
            assert(v3.set_active_at(v3.ids.len() - 1) == v3);
            lemma_view_is_ok(s3, act, out);
            lemma_with_view_coherent(s3, act, out, v3);
            lemma_view_after_set(s3.acts, act, out, v3);
        }
        assert(s4.view_of(act, out) == Some(v3));
        assert forall|a: ActivityId, b: OutputId| a != act || b != out implies #[trigger] s4.view_of(
            a,
            b,
        ) == s.view_of(a, b) by {
            assert(s2.view_of(a, b) == s.view_of(a, b));
            if lead {
                lemma_view_after_set_other(s2.acts, act, out, v3, a, b);
            }
            if tail {
                lemma_view_after_set_other(s3.acts, act, out, v3, a, b);
            }
        }
        assert(calm(s3, s4, o)) by {
            if tail {
                crate::cores::lemma_with_view_calm(s3, act, out, v3, o);
            } else {
                lemma_calm_still(s3, s4, o);
            }
        }
        lemma_calm_trans(s2, s3, s4, o);
        lemma_settle(s4, mon);
        lemma_calm_still(s4, s5, o);
        lemma_calm_trans(s2, s4, s5, o);
        lemma_clean_up(s5, mon);
        lemma_clean_up_calm(s5, mon, o);
        lemma_calm_trans(s2, s5, t, o);
        lemma_same_work_trans(s.pool, s2.pool, t.pool, o);
        assert(s5.apart_from(mon)) by {
            assert forall|b: OutputId, x: WorkspaceId| b != out && #[trigger] s5.shows_on(
                act,
                b,
                x,
            ) implies !s5.shows_on(act, out, x) by {
                assert(s4.view_of(act, b) == s.view_of(act, b));
                assert(s.shows_on(act, b, x));
                if s5.shows_on(act, out, x) {
                    assert(v3.ids.contains(x));
                    lemma_insert_contains(v1.ids, 0, top, x);
                    lemma_view_is_ok(s, act, b);
                    assert(s.pool.member(x, act));
                    if lead && x == top {
                        assert(s2.pool.member(x, act));
                    } else if v.ids.contains(x) {
                        assert(s.shows_on(act, out, x));
                    }
                }
            }
        }
        lemma_clean_up_views(s5, mon);
        assert(s5.active_view(out) == Some(v3));
        if m.empty_workspace_above_first {
            lemma_clean_up_first(s5, mon);
        }
        lemma_clean_up_last(s5, mon);
        assert(s5.pool.busy(v.ids.last()) == s.pool.busy(v.ids.last())) by {
            assert(s2.pool.busy(v.ids.last()) == s.pool.busy(v.ids.last()));
            assert(s5.pool.busy(v.ids.last()) == s2.pool.busy(v.ids.last()));
        }
        assert(forall|x: WorkspaceId| s5.pool.busy(x) == #[trigger] s.pool.busy(x)) by {
            assert forall|x: WorkspaceId| s5.pool.busy(x) == #[trigger] s.pool.busy(x) by {
                assert(s2.pool.busy(x) == s.pool.busy(x));
                assert(s5.pool.busy(x) == s2.pool.busy(x));
            }
        }
        lemma_same_core(s.pool, s2.pool, o);
        assert(kept_view(s2.pool, s2.view_of(act, out), t.view_of(act, out)));
        assert(s2.pool.busy(v1.active) == s.pool.busy(v1.active));
        let w = t.view_of(act, out).unwrap();
        assert forall|x: WorkspaceId| #[trigger] w.ids.contains(x) implies s.shows_on(act, out, x)
            || ids.contains(x) || !s.pool.has(x) by {
            assert(v3.ids.contains(x));
            lemma_insert_contains(v1.ids, 0, top, x);
            if lead && x == top {
                assert(!s2.pool.has(x));
                assert(s1.pool.pos(x) == s.pool.pos(x));
            }
        }
        if m.empty_workspace_above_first {
            assert(!s.pool.busy(v3.ids[0])) by {
                if lead {
                    assert(!s2.pool.busy(top));
                    assert(s2.pool.busy(top) == s.pool.busy(top));
                } else {
                    assert(s2.pool.busy(v1.ids[0]) == s.pool.busy(v1.ids[0]));
                }
            }
        }
        assert forall|x: WorkspaceId| #[trigger] bound_for(t.pool, x, o) implies bound_for(
            s.pool,
            x,
            o,
        ) by {
            assert(t.pool.has(x));
            assert(t.pool.get(x) == s5.pool.get(x));
            if lead && x == top {
                assert(s3.pool.get(top) == s2.pool.mint(out, act).get(top));
            } else if lead {
                assert(s2.pool.mint(out, act).get(x) == s2.pool.get(x));
            }
            assert(bound_for(s1.pool, x, o));
        }
        assert forall|x: WorkspaceId, a: ActivityId| #[trigger] t.pool.member(x, a) && s.pool.has(
            x,
        ) implies s.pool.member(x, a) by {
            assert(t.pool.has(x));
            assert(t.pool.get(x) == s5.pool.get(x));
            assert(s1.pool.pos(x) == s.pool.pos(x));
            if lead {
                assert(x != top);
                assert(s2.pool.mint(out, act).get(x) == s2.pool.get(x));
            }
            assert(s1.pool.member(x, a));
            assert(s1.pool.member(x, a) == s.pool.member(x, a));
        }
        assert forall|x: WorkspaceId, a: ActivityId| #[trigger] s.pool.member(x, a) && t.pool.has(
            x,
        ) implies t.pool.member(x, a) by {
            assert(t.pool.get(x) == s5.pool.get(x));
            assert(s1.pool.member(x, a) == s.pool.member(x, a));
            if lead {
                assert(s2.pool.has(x));
                assert(x != top);
                assert(s2.pool.mint(out, act).get(x) == s2.pool.get(x));
            }
        }
    }
}

/// What a sequence holds once something was put in.
pub proof fn lemma_insert_contains(s: Seq<WorkspaceId>, i: int, y: WorkspaceId, x: WorkspaceId)
    requires
        0 <= i <= s.len(),
    ensures
        s.insert(i, y).contains(x) <==> (s.contains(x) || x == y),
{
    let t = s.insert(i, y);
    if t.contains(x) {
        let k = choose|k: int| 0 <= k < t.len() && t[k] == x;
        if k < i {
            assert(s[k] == x);
        } else if k > i {
            assert(s[k - 1] == x);
        }
    }
    if s.contains(x) {
        let k = choose|k: int| 0 <= k < s.len() && s[k] == x;
        if k < i {
            assert(t[k] == x);
        } else {
            assert(t[k + 1] == x);
        }
    }
    assert(t[i] == y);
}

/// Workspaces moved over one by one end up above the last one of the view, in order.
pub proof fn lemma_migrate_spliced(s: LayoutModel, act: ActivityId, ids: Seq<WorkspaceId>, output: Output, o: Output)
    requires
        s.coherent(),
        apart(output, o),
        match s.view_of(act, output.id) {
            Some(v) => v.ids.len() > 0,
            None => false,
        },
    ensures
        s.migrate_all(act, ids, output).view_of(act, output.id) == Some(
            spliced(s.view_of(act, output.id).unwrap(), ids),
        ),
        same_work(s.pool, s.migrate_all(act, ids, output).pool, o),
        no_new_routes(s.pool, s.migrate_all(act, ids, output).pool, o),
        s.migrate_all(act, ids, output).pool.wf(),
    decreases ids.len(),
{
    let v = s.view_of(act, output.id).unwrap();
    if ids.len() == 0 {
        assert(spliced(v, ids).ids =~= v.ids);
        lemma_calm_still(s, s, o);
    } else {
        let rest = ids.drop_last();
        let id = ids.last();
        lemma_migrate_spliced(s, act, rest, output, o);
        let t = s.migrate_all(act, rest, output);
        let q = t.pool.unbind(id);
        lemma_unbind_work(t.pool, id, o);
        lemma_bind_alike(t.pool, id, output);
        lemma_alike(t.pool, q);
        lemma_bind_work(q, id, output, o);
        lemma_bind_alike(q, id, output);
        let r = q.bind(id, output);
        lemma_alike(q, r);
        lemma_same_work_trans(t.pool, q, r, o);
        lemma_same_work_trans(s.pool, t.pool, r, o);
        lemma_unbind_all_routes(t.pool, seq![id], o);
        assert(t.pool.unbind_all(seq![id]) == q) by {
            assert(seq![id].drop_last() =~= Seq::<WorkspaceId>::empty());
            reveal_with_fuel(PoolModel::unbind_all, 2);
        }
        lemma_bind_routes(q, id, output, o);
        assert forall|x: WorkspaceId| #[trigger] bound_for(r, x, o) implies bound_for(
            s.pool,
            x,
            o,
        ) by {
            assert(bound_for(q, x, o));
            assert(bound_for(t.pool, x, o));
        }
        let t1 = LayoutModel { pool: r, ..t };
        let w = spliced(v, rest);
        let n = v.ids.len() - 1;
        assert(t1.view_of(act, output.id) == Some(w));
        assert(w.insert(w.ids.len() - 1, id).ids =~= spliced(v, ids).ids) by {
            assert(w.ids.len() == v.ids.len() + rest.len());
            assert(ids =~= rest.push(id));
        }
        lemma_view_after_set(t1.acts, act, output.id, w.insert(w.ids.len() - 1, id));
    }
}

/// What activity `a` shows on `output` and `out` in `s` can be put together on `output`.
pub open spec fn can_migrate(
    s: LayoutModel,
    pool: PoolModel,
    a: ActivityModel,
    out: OutputId,
    output: Output,
) -> bool {
    let ids = movers(pool, a, out);
    &&& ids.no_duplicates()
    &&& forall|x: WorkspaceId| #[trigger] ids.contains(x) ==> s.pool.member(x, a.id)
    &&& match s.view_of(a.id, output.id) {
        Some(v) => v.ids.len() > 0 && forall|x: WorkspaceId| #[trigger]
            ids.contains(x) ==> !v.ids.contains(x),
        None => false,
    }
}

/// What moving the workspaces of the first `n` activities over does.
pub proof fn lemma_migrate_from(
    s: LayoutModel,
    pool: PoolModel,
    list: Seq<ActivityModel>,
    n: int,
    out: OutputId,
    output: Output,
    o: Output,
)
    requires
        s.coherent(),
        apart(output, o),
        0 <= n <= list.len(),
        forall|i: int, j: int|
            0 <= i < j < list.len() ==> (#[trigger] list[i]).id != (#[trigger] list[j]).id,
        forall|i: int|
            0 <= i < list.len() ==> can_migrate(s, pool, #[trigger] list[i], out, output),
    ensures
        ({
            let t = s.migrate_from(pool, list.take(n), out, output);
            &&& t.coherent()
            &&& alike(s.pool, t.pool)
            &&& same_work(s.pool, t.pool, o)
            &&& no_new_routes(s.pool, t.pool, o)
            &&& t.acts.ids() == s.acts.ids()
            &&& forall|i: int|
                #![trigger list[i]]
                0 <= i < n ==> t.view_of(list[i].id, output.id) == Some(
                    spliced(
                        s.view_of(list[i].id, output.id).unwrap(),
                        movers(pool, list[i], out),
                    ),
                )
            &&& forall|a: ActivityId, b: OutputId|
                b != output.id || (forall|i: int| 0 <= i < n ==> (#[trigger] list[i]).id != a)
                    ==> #[trigger] t.view_of(a, b) == s.view_of(a, b)
        }),
    decreases n,
{
    let t = s.migrate_from(pool, list.take(n), out, output);
    if n == 0 {
        assert(list.take(n) =~= Seq::<ActivityModel>::empty());
        lemma_calm_still(s, s, o);
    } else {
        assert(list.take(n).drop_last() =~= list.take(n - 1));
        let c = list[n - 1];
        assert(list.take(n).last() == c);
        lemma_migrate_from(s, pool, list, n - 1, out, output, o);
        let r = s.migrate_from(pool, list.take(n - 1), out, output);
        let ids = movers(pool, c, out);
        assert(can_migrate(s, pool, c, out, output));
        assert(r.view_of(c.id, output.id) == s.view_of(c.id, output.id));
        lemma_alike(s.pool, r.pool);
        assert forall|x: WorkspaceId| #[trigger] ids.contains(x) implies r.pool.member(
            x,
            c.id,
        ) by {
            assert(s.pool.member(x, c.id));
        }
        lemma_migrate_all(r, c.id, ids, output);
        lemma_migrate_spliced(r, c.id, ids, output, o);
        assert(t == r.migrate_all(c.id, ids, output));
        crate::keeping_outputs::lemma_alike_trans(s.pool, r.pool, t.pool);
        lemma_same_work_trans(s.pool, r.pool, t.pool, o);
        assert forall|x: WorkspaceId| #[trigger] bound_for(t.pool, x, o) implies bound_for(
            s.pool,
            x,
            o,
        ) by {
            assert(bound_for(r.pool, x, o));
        }
        assert forall|i: int| #![trigger list[i]] 0 <= i < n implies t.view_of(
            list[i].id,
            output.id,
        ) == Some(
            spliced(s.view_of(list[i].id, output.id).unwrap(), movers(pool, list[i], out)),
        ) by {
            if i < n - 1 {
                assert(list[i].id != c.id);
                assert(r.view_of(list[i].id, output.id) == Some(
                    spliced(s.view_of(list[i].id, output.id).unwrap(), movers(pool, list[i], out)),
                ));
            }
        }
        assert forall|a: ActivityId, b: OutputId|
            b != output.id || (forall|i: int| 0 <= i < n ==> (#[trigger] list[i]).id != a) implies
            #[trigger] t.view_of(a, b) == s.view_of(a, b) by {
            assert(b == output.id ==> a != c.id);
            assert(r.view_of(a, b) == s.view_of(a, b));
        }
    }
}

/// The core of a view with workspaces put in above its last, empty one.
pub proof fn lemma_spliced_core(pool: PoolModel, v: ViewModel, ids: Seq<WorkspaceId>)
    requires
        v.ids.len() > 0,
        !pool.busy(v.ids.last()),
    ensures
        busy_of(pool, spliced(v, ids).ids) == busy_of(pool, v.ids) + busy_of(pool, ids),
{
    let n = v.ids.len() - 1;
    let p = worth_keeping(pool);
    let head = v.ids.take(n);
    let tail = v.ids.skip(n);
    Seq::filter_distributes_over_add(head + ids, tail, p);
    Seq::filter_distributes_over_add(head, ids, p);
    assert(v.ids =~= head + tail);
    Seq::filter_distributes_over_add(head, tail, p);
    assert(tail =~= seq![v.ids.last()]);
    assert forall|i: int| 0 <= i < tail.len() implies !(#[trigger] p(tail[i])) by {}
    lemma_filter_none(tail, p);
    assert(head.filter(p) + tail.filter(p) =~= head.filter(p));
    assert((head.filter(p) + ids.filter(p)) + tail.filter(p) =~= head.filter(p) + ids.filter(p));
}

/// What views there are once one was dropped.
pub proof fn lemma_drop_view_views(s: LayoutModel, act: ActivityId, out: OutputId)
    requires
        s.coherent(),
    ensures
        s.acts.drop_view(act, out).view_of(act, out) is None,
        s.acts.drop_view(act, out).ids() == s.acts.ids(),
        forall|a: ActivityId, b: OutputId|
            a != act || b != out ==> #[trigger] s.acts.drop_view(act, out).view_of(a, b)
                == s.acts.view_of(a, b),
{
    lemma_act(s.acts, act);
    if let Some(c) = s.acts.get(act) {
        assert(activity_ok(s.pool, s.acts.list[s.acts.pos(act).unwrap()]));
        lemma_drop_view_ok(s.pool, c, out);
        crate::promises::lemma_get_put_act(s.acts, act, c.drop_view(out));
        crate::materialize::lemma_put_ids(s.acts, act, c.drop_view(out));
        assert forall|a: ActivityId, b: OutputId| a != act || b != out implies #[trigger] s.acts.drop_view(
            act,
            out,
        ).view_of(a, b) == s.acts.view_of(a, b) by {
            if a != act {
                assert(s.acts.put(act, c.drop_view(out)).get(a) == s.acts.get(a));
            } else {
                assert(c.drop_view(out).view_of(b) == c.view_of(b));
            }
        }
    }
}

impl LayoutModel {
    /// No other monitor than `idx` has a designation of its output, which has a name of its own.
    pub open spec fn stands_alone(self, idx: int) -> bool {
        self.monitors[idx].output.id.0 != 0 && forall|k: int|
            0 <= k < self.monitors.len() && k != idx ==> apart(
                (#[trigger] self.monitors[k]).output,
                self.monitors[idx].output,
            )
    }

    /// The output that takes in the workspaces of monitor `idx` when that is disconnected.
    pub open spec fn refuge_from(self, idx: int) -> Output {
        self.monitors.remove(idx)[index_after(self.primary, idx)].output
    }

    /// The layout right after the active activity lost its view of monitor `idx`.
    pub open spec fn unplugged(self, idx: int) -> LayoutModel {
        let m = self.monitors[idx];
        LayoutModel {
            acts: self.acts.drop_view(self.acts.active, m.output.id),
            monitors: self.monitors.remove(idx),
            remembered: noted(
                self.remembered,
                m.output.connector,
                self.active_view(m.output.id).unwrap().active,
            ),
            primary: index_after(self.primary, idx),
            focused: index_after(self.focused, idx),
            ..self
        }
    }
}

/// What there is right after the active activity lost its view of a monitor.
pub proof fn lemma_unplugged(s: LayoutModel, idx: int)
    requires
        s.whole(),
        s.monitors.len() > 1,
        0 <= idx < s.monitors.len(),
        0 <= s.primary,
        s.stands_alone(idx),
    ensures
        ({
            let t = s.unplugged(idx);
            let out = s.monitors[idx].output.id;
            let act = s.acts.active;
            let home = s.refuge_from(idx);
            &&& t.coherent()
            &&& 0 <= t.primary < t.monitors.len()
            &&& t.monitors[t.primary].output == home
            &&& apart(home, s.monitors[idx].output)
            &&& s.active_view(out) is Some
            &&& t.acts.ids() == s.acts.ids()
            &&& t.view_of(act, out) is None
            &&& forall|a: ActivityId, b: OutputId|
                a != act || b != out ==> #[trigger] t.view_of(a, b) == s.view_of(a, b)
            &&& forall|a: ActivityId| #[trigger] s.acts.has(a) ==> s.view_of(a, home.id) is Some
            &&& s.active_view(home.id) is Some
            &&& !s.pool.busy(s.active_view(home.id).unwrap().ids.last())
            &&& t.monitors[t.primary].empty_workspace_above_first ==> !s.pool.busy(
                s.active_view(home.id).unwrap().ids[0],
            )
            &&& t.apart_from(t.primary)
            &&& forall|a: ActivityId| #[trigger]
                s.acts.has(a) ==> !s.pool.busy(s.view_of(a, home.id).unwrap().ids.last())
        }),
{
    let t = s.unplugged(idx);
    let m = s.monitors[idx];
    let out = m.output.id;
    let act = s.acts.active;
    lemma_whole_views(s);
    assert(s.acts.has(act));
    assert(s.view_of(act, s.monitors[idx].output.id) is Some);
    lemma_drop_view_coherent(s, act, out);
    lemma_drop_view_views(s, act, out);
    let k = if t.primary < idx {
        t.primary
    } else {
        t.primary + 1
    };
    assert(t.monitors[t.primary] == s.monitors[k]);
    let home = s.monitors[k].output;
    assert(apart(s.monitors[k].output, m.output));
    assert(s.view_of(act, s.monitors[k].output.id) is Some);
    assert forall|a: ActivityId| #[trigger] s.acts.has(a) implies s.view_of(a, home.id) is Some
        && !s.pool.busy(s.view_of(a, home.id).unwrap().ids.last()) by {
        assert(s.view_of(a, s.monitors[k].output.id) is Some);
        lemma_act(s.acts, a);
        lemma_view_is_ok(s, a, home.id);
        assert(s.ends_empty(s.acts.list[s.acts.pos(a).unwrap()].id, k));
    }
    lemma_act(s.acts, act);
    lemma_view_is_ok(s, act, home.id);
    assert(s.ends_empty(s.acts.list[s.acts.pos(act).unwrap()].id, k));
    assert(s.apart_from(k));
    assert(t.apart_from(t.primary)) by {
        assert forall|b: OutputId, x: WorkspaceId| b != home.id && #[trigger] t.shows_on(
            act,
            b,
            x,
        ) implies !t.shows_on(act, home.id, x) by {
            if b == out {
                assert(t.view_of(act, out) is None);
            } else {
                assert(t.view_of(act, b) == s.view_of(act, b));
                assert(t.view_of(act, home.id) == s.view_of(act, home.id));
                assert(s.shows_on(act, b, x));
                if t.shows_on(act, home.id, x) {
                    assert(s.shows_on(act, home.id, x));
                }
            }
        }
    }
}

/// What the last but one step of disconnecting a monitor beside others leaves behind: the views of
/// the output are gone, and what had windows or a name is on the refuge.
pub open spec fn folded(s: LayoutModel, t: LayoutModel, idx: int) -> bool {
    let o = s.monitors[idx].output;
    let act = s.acts.active;
    let home = s.refuge_from(idx);
    &&& t.coherent()
    &&& same_work(s.pool, t.pool, o)
    &&& no_new_routes(s.pool, t.pool, o)
    &&& t.acts.ids() == s.acts.ids()
    &&& t.acts.active == act
    &&& forall|a: ActivityId| #[trigger] t.view_of(a, o.id) is None
    &&& forall|a: ActivityId, b: OutputId|
        b != o.id && b != home.id ==> #[trigger] t.view_of(a, b) == s.view_of(a, b)
    &&& forall|a: ActivityId| #[trigger]
        s.acts.has(a) && a != act ==> t.view_of(a, home.id) == Some(
            spliced(s.view_of(a, home.id).unwrap(), view_core(s.pool, s.view_of(a, o.id))),
        )
    &&& kept_view(
        s.pool,
        Some(spliced(s.view_of(act, home.id).unwrap(), view_core(s.pool, s.view_of(act, o.id)))),
        t.view_of(act, home.id),
    )
    &&& match t.view_of(act, home.id) {
        Some(w) => forall|x: WorkspaceId| #[trigger]
            w.ids.contains(x) ==> s.shows_on(act, home.id, x) || (s.shows_on(act, o.id, x)
                && s.pool.busy(x)) || !s.pool.has(x),
        None => false,
    }
    &&& match t.view_of(act, home.id) {
        Some(w) => !s.pool.busy(w.ids.last())
            && (t.monitors[t.primary].empty_workspace_above_first ==> !s.pool.busy(w.ids[0])),
        None => false,
    }
    &&& t.open_for(o.id)
}

impl LayoutModel {
    /// What the active activity shows on monitor `idx` that has windows or a name.
    pub open spec fn carried(self, idx: int) -> Seq<WorkspaceId> {
        view_core(self.pool, self.active_view(self.monitors[idx].output.id))
    }

    /// Monitor `idx` gone and what the active activity showed there on the primary monitor.
    pub open spec fn taken_in(self, idx: int) -> LayoutModel {
        let s = self.unplugged(idx);
        LayoutModel { pool: self.pool.unbind_all(self.carried(idx)), ..s }.append(
            s.primary,
            self.carried(idx),
        )
    }

    /// Monitor `idx` gone and what any activity showed there on the primary monitor.
    pub open spec fn moved_in(self, idx: int) -> LayoutModel {
        let s = self.taken_in(idx);
        let out = self.monitors[idx].output.id;
        s.drop_views(out).migrate_from(s.pool, s.acts.list, out, self.refuge_from(idx))
    }

    /// The empty workspaces of monitor `idx`.
    pub open spec fn emptied(self, idx: int) -> Seq<WorkspaceId> {
        let s = self.taken_in(idx);
        let out = self.monitors[idx].output.id;
        firsts(
            self.active_view(out).unwrap().ids.filter(idle(self.pool)) + residents(
                s.acts.list,
                out,
            ).filter(idle(s.pool)),
        )
    }
}

/// The steps of disconnecting a monitor beside others.
pub proof fn lemma_fold_steps(s: LayoutModel, idx: int)
    requires
        s.monitors.len() > 1,
        0 <= idx < s.monitors.len(),
        s.active_view(s.monitors[idx].output.id) is Some,
        0 <= s.unplugged(idx).primary < s.monitors.len() - 1,
        s.acts.drop_view(s.acts.active, s.monitors[idx].output.id).ids() == s.acts.ids(),
    ensures
        s.remove_output(idx) == s.moved_in(idx).destroy_all(s.emptied(idx)).ensure_all(),
        s.unplugged(idx).leads_to(s.taken_in(idx)),
        s.taken_in(idx).leads_to(s.moved_in(idx)),
        s.moved_in(idx).leads_to(s.moved_in(idx).destroy_all(s.emptied(idx))),
        s.moved_in(idx).destroy_all(s.emptied(idx)).leads_to(s.remove_output(idx)),
        s.taken_in(idx).acts.ids() == s.acts.ids(),
        s.taken_in(idx).monitors[s.unplugged(idx).primary].output == s.refuge_from(idx),
{
    let out = s.monitors[idx].output.id;
    let s0 = s.unplugged(idx);
    let kept = s.carried(idx);
    let s1 = LayoutModel { pool: s.pool.unbind_all(kept), ..s0 };
    let s2 = s.taken_in(idx);
    let s3 = s2.drop_views(out);
    let s4 = s.moved_in(idx);
    let s5 = s4.destroy_all(s.emptied(idx));
    crate::connect::lemma_unbind_all_next(s.pool, kept);
    assert(s0.leads_to(s1));
    crate::disconnect::lemma_append_leads(s1, s0.primary, kept);
    assert(s1.leads_to(s2));
    assert(s0.monitors[s0.primary].output == s2.monitors[s0.primary].output);
    crate::disconnect::lemma_drop_views_leads(s2, out);
    crate::disconnect::lemma_migrate_from_leads(s3, s2.pool, s2.acts.list, out, s.refuge_from(idx));
    crate::reclaim::lemma_destroy_all_leads(s4, s.emptied(idx));
    crate::materialize::lemma_ensure_rows_leads(s5, 0, s5.acts.list.len() as int);
    let whole = LayoutModel {
        primary: index_after(s.primary, idx),
        focused: index_after(s.focused, idx),
        acts: s.acts.drop_view(s.acts.active, out),
        monitors: s.monitors.remove(idx),
        remembered: noted(
            s.remembered,
            s.monitors[idx].output.connector,
            s.active_view(out).unwrap().active,
        ),
        ..s
    };
    assert(whole == s0);
    assert(s.remove_output(idx) == s0.fold_into_primary(s.active_view(out).unwrap().ids, out));
}

/// What there is once the primary monitor took in what the active activity showed.
pub proof fn lemma_taken_in(s: LayoutModel, idx: int)
    requires
        s.whole(),
        s.monitors.len() > 1,
        0 <= idx < s.monitors.len(),
        0 <= s.primary,
        s.stands_alone(idx),
        s.taken_in(idx).fits(),
    ensures
        ({
            let t = s.taken_in(idx);
            let o = s.monitors[idx].output;
            let act = s.acts.active;
            let home = s.refuge_from(idx);
            &&& t.coherent()
            &&& t.acts.active == act
            &&& same_work(s.pool, t.pool, o)
            &&& no_new_routes(s.pool, t.pool, o)
            &&& forall|x: WorkspaceId, a: ActivityId| #[trigger]
                s.pool.member(x, a) && t.pool.has(x) ==> t.pool.member(x, a)
            &&& t.view_of(act, o.id) is None
            &&& forall|a: ActivityId, b: OutputId|
                (a != act || b != home.id) && (a != act || b != o.id) ==> #[trigger] t.view_of(a, b)
                    == s.view_of(a, b)
            &&& kept_view(
                s.pool,
                Some(spliced(s.view_of(act, home.id).unwrap(), s.carried(idx))),
                t.view_of(act, home.id),
            )
            &&& match t.view_of(act, home.id) {
                Some(w) => {
                    &&& forall|x: WorkspaceId| #[trigger]
                        w.ids.contains(x) ==> s.shows_on(act, home.id, x) || s.carried(
                            idx,
                        ).contains(x) || !s.pool.has(x)
                    &&& t.monitors[t.primary].empty_workspace_above_first ==> !s.pool.busy(w.ids[0])
                    &&& !s.pool.busy(w.ids.last())
                },
                None => false,
            }
        }),
{
    let o = s.monitors[idx].output;
    let out = o.id;
    let act = s.acts.active;
    let home = s.refuge_from(idx);
    lemma_unplugged(s, idx);
    let v = s.active_view(out).unwrap();
    lemma_view_is_ok(s, act, out);
    let s0 = s.unplugged(idx);
    let p = s0.primary;
    let kept = s.carried(idx);
    assert(kept == v.ids.filter(worth_keeping(s.pool)));
    lemma_filter(v.ids, worth_keeping(s.pool));
    let q = s.pool.unbind_all(kept);
    let s1 = LayoutModel { pool: q, ..s0 };
    lemma_unbind_all_alike(s.pool, kept);
    lemma_alike(s.pool, q);
    lemma_alike_coherent(s0, q);
    lemma_unbind_all_work(s.pool, kept, o);
    lemma_unbind_all_routes(s.pool, kept, o);
    let t = s.taken_in(idx);
    assert forall|x: WorkspaceId| #[trigger] kept.contains(x) implies s1.pool.member(x, act) by {
        assert(s.pool.member(x, act));
    }
    assert forall|x: WorkspaceId, b: OutputId| #[trigger] s1.shows_on(
        act,
        b,
        x,
    ) implies !kept.contains(x) by {
        if b != out {
            assert(s0.view_of(act, b) == s.view_of(act, b));
            assert(s.shows_on(act, b, x));
            if kept.contains(x) {
                assert(s.shows_on(act, out, x));
            }
        }
    }
    assert(s1.apart_from(p)) by {
        assert forall|b: OutputId, x: WorkspaceId| b != home.id && #[trigger] s1.shows_on(
            act,
            b,
            x,
        ) implies !s1.shows_on(act, home.id, x) by {
            assert(s0.shows_on(act, b, x));
        }
    }
    assert(s0.view_of(act, home.id) == s.view_of(act, home.id));
    let vh = s.active_view(home.id).unwrap();
    assert(q.busy(vh.ids[0]) == s.pool.busy(vh.ids[0]));
    assert(s1.active_view(home.id) == Some(vh));
    lemma_append_views(s1, p, kept, o);
    crate::disconnect::lemma_append_leads(s1, p, kept);
    lemma_same_core(s.pool, q, o);
    lemma_same_work_trans(s.pool, q, t.pool, o);
    assert forall|x: WorkspaceId| #[trigger] bound_for(t.pool, x, o) implies bound_for(
        s.pool,
        x,
        o,
    ) by {
        assert(bound_for(q, x, o));
    }
    assert forall|a: ActivityId, b: OutputId|
        (a != act || b != home.id) && (a != act || b != o.id) implies #[trigger] t.view_of(a, b)
        == s.view_of(a, b) by {
        assert(t.view_of(a, b) == s1.view_of(a, b));
        assert(s0.view_of(a, b) == s.view_of(a, b));
    }
    assert(t.view_of(act, out) == s1.view_of(act, out));
    let w = t.view_of(act, home.id).unwrap();
    let sp = spliced(vh, kept);
    assert(q.busy(sp.active) == s.pool.busy(sp.active));
    assert forall|x: WorkspaceId| #[trigger] w.ids.contains(x) implies s.shows_on(act, home.id, x)
        || kept.contains(x) || !s.pool.has(x) by {
        assert(q.pos(x) == s.pool.pos(x));
    }
    assert(q.busy(w.ids[0]) == s.pool.busy(w.ids[0]));
    assert(q.busy(w.ids.last()) == s.pool.busy(w.ids.last()));
    assert(q.busy(vh.ids.last()) == s.pool.busy(vh.ids.last()));
    assert(t.monitors[t.primary].empty_workspace_above_first
        == s1.monitors[p].empty_workspace_above_first) by {
        assert(s1.monitors[p].output == t.monitors[p].output);
    }
    assert forall|x: WorkspaceId, a: ActivityId| #[trigger] s.pool.member(x, a) && t.pool.has(
        x,
    ) implies t.pool.member(x, a) by {
        assert(q.member(x, a) == s.pool.member(x, a));
    }
}

/// What there is once the primary monitor took in what all activities showed.
#[verifier::spinoff_prover]
#[verifier::rlimit(60)]
pub proof fn lemma_moved_in(s: LayoutModel, idx: int)
    requires
        s.whole(),
        s.monitors.len() > 1,
        0 <= idx < s.monitors.len(),
        0 <= s.primary,
        s.stands_alone(idx),
        s.taken_in(idx).fits(),
        s.taken_in(idx).acts.ids() == s.acts.ids(),
    ensures
        ({
            let t = s.moved_in(idx);
            let o = s.monitors[idx].output;
            let act = s.acts.active;
            let home = s.refuge_from(idx);
            &&& t.coherent()
            &&& t.acts.ids() == s.acts.ids()
            &&& same_work(s.pool, t.pool, o)
            &&& no_new_routes(s.pool, t.pool, o)
            &&& alike(s.taken_in(idx).pool, t.pool)
            &&& forall|a: ActivityId| #[trigger] t.view_of(a, o.id) is None
            &&& forall|a: ActivityId, b: OutputId|
                b != o.id && b != home.id ==> #[trigger] t.view_of(a, b) == s.view_of(a, b)
            &&& forall|a: ActivityId| #[trigger]
                s.acts.has(a) && a != act ==> t.view_of(a, home.id) == Some(
                    spliced(s.view_of(a, home.id).unwrap(), view_core(s.pool, s.view_of(a, o.id))),
                )
            &&& t.view_of(act, home.id) == s.taken_in(idx).view_of(act, home.id)
        }),
{
    let o = s.monitors[idx].output;
    let out = o.id;
    let act = s.acts.active;
    let home = s.refuge_from(idx);
    lemma_unplugged(s, idx);
    lemma_taken_in(s, idx);
    let s2 = s.taken_in(idx);
    let s3 = s2.drop_views(out);
    let t = s.moved_in(idx);
    lemma_same_core(s.pool, s2.pool, o);
    lemma_same_ids(s.acts, s2.acts);
    lemma_drop_views(s2, out);
    let list = s2.acts.list;
    assert forall|i: int| 0 <= i < list.len() implies can_migrate(
        s3,
        s2.pool,
        #[trigger] list[i],
        out,
        home,
    ) by {
        let c = list[i];
        lemma_act_pos(s2.acts, i);
        let ids = movers(s2.pool, c, out);
        assert(s2.view_of(c.id, out) == c.view_of(out));
        assert(s3.view_of(c.id, home.id) == s2.view_of(c.id, home.id));
        assert(s2.acts.has(c.id));
        assert(s.acts.has(c.id));
        lemma_view_is_ok(s2, c.id, out);
        lemma_view_is_ok(s2, c.id, home.id);
        if c.id == act {
            assert(ids =~= Seq::<WorkspaceId>::empty());
        } else {
            assert(s2.view_of(c.id, home.id) == s.view_of(c.id, home.id));
            assert(s2.view_of(c.id, out) == s.view_of(c.id, out));
            if let Some(z) = c.view_of(out) {
                lemma_filter(z.ids, worth_keeping(s2.pool));
                assert forall|x: WorkspaceId| #[trigger] ids.contains(x) implies s3.pool.member(
                    x,
                    c.id,
                ) && !s3.view_of(c.id, home.id).unwrap().ids.contains(x) by {
                    assert(z.ids.contains(x));
                    assert(s2.pool.member(x, c.id));
                    assert(s.shows_on(c.id, out, x));
                    if s3.view_of(c.id, home.id).unwrap().ids.contains(x) {
                        assert(s.shows_on(c.id, home.id, x));
                    }
                }
            } else {
                assert(ids =~= Seq::<WorkspaceId>::empty());
            }
        }
    }
    let n = list.len() as int;
    assert(list.take(n) =~= list);
    lemma_migrate_from(s3, s2.pool, list, n, out, home, o);
    lemma_same_work_trans(s.pool, s2.pool, t.pool, o);
    assert forall|x: WorkspaceId| #[trigger] bound_for(t.pool, x, o) implies bound_for(
        s.pool,
        x,
        o,
    ) by {
        assert(bound_for(s3.pool, x, o));
    }
    assert forall|a: ActivityId| #[trigger] s.acts.has(a) && a != act implies t.view_of(a, home.id)
        == Some(spliced(s.view_of(a, home.id).unwrap(), view_core(s.pool, s.view_of(a, out)))) by {
        lemma_act(s2.acts, a);
        assert(s2.acts.has(a));
        let i = s2.acts.pos(a).unwrap();
        let c = list[i];
        assert(c.id == a);
        assert(s2.view_of(a, out) == c.view_of(out));
        assert(s2.view_of(a, out) == s.view_of(a, out));
        assert(s3.view_of(a, home.id) == s2.view_of(a, home.id));
        assert(s2.view_of(a, home.id) == s.view_of(a, home.id));
        assert(movers(s2.pool, c, out) =~= view_core(s.pool, s.view_of(a, out)));
    }
    assert(t.view_of(act, home.id) == s2.view_of(act, home.id)) by {
        assert(s3.view_of(act, home.id) == s2.view_of(act, home.id));
        lemma_act(s2.acts, act);
        let i = s2.acts.pos(act).unwrap();
        let c = list[i];
        assert(s2.view_of(act, out) == c.view_of(out));
        assert(movers(s2.pool, c, out) =~= Seq::<WorkspaceId>::empty());
        let z = s3.view_of(act, home.id).unwrap();
        assert(spliced(z, Seq::<WorkspaceId>::empty()).ids =~= z.ids);
        assert(t.view_of(list[i].id, home.id) == Some(spliced(z, movers(s2.pool, c, out))));
    }
    assert forall|a: ActivityId, b: OutputId| b != out && b != home.id implies #[trigger] t.view_of(
        a,
        b,
    ) == s.view_of(a, b) by {
        assert(s3.view_of(a, b) == s2.view_of(a, b));
        assert(s2.view_of(a, b) == s.view_of(a, b));
    }
    assert forall|a: ActivityId| #[trigger] t.view_of(a, out) is None by {
        assert(s3.view_of(a, out) is None);
    }
}

/// Disconnecting a monitor beside others.
pub proof fn lemma_fold(s: LayoutModel, idx: int)
    requires
        s.whole(),
        s.monitors.len() > 1,
        0 <= idx < s.monitors.len(),
        0 <= s.primary,
        s.stands_alone(idx),
        s.remove_output(idx).fits(),
    ensures
        folded(s, s.remove_output(idx), idx),
        s.unplugged(idx).leads_to(s.remove_output(idx)),
{
    let o = s.monitors[idx].output;
    let out = o.id;
    let act = s.acts.active;
    let home = s.refuge_from(idx);
    let t = s.remove_output(idx);
    lemma_unplugged(s, idx);
    lemma_drop_view_views(s, act, out);
    lemma_fold_steps(s, idx);
    let s0 = s.unplugged(idx);
    let s2 = s.taken_in(idx);
    let s4 = s.moved_in(idx);
    let doomed = s.emptied(idx);
    let s5 = s4.destroy_all(doomed);
    assert(s2.fits());
    lemma_taken_in(s, idx);
    lemma_moved_in(s, idx);
    lemma_doomed_away(s, idx);
    assert forall|i: int| 0 <= i < doomed.len() implies !s4.pool.busy(#[trigger] doomed[i]) && (
    s4.pool.shared(doomed[i]) || !s4.parked.contains(doomed[i])) by {
        assert(doomed.contains(doomed[i]));
        assert(s4.pool.busy(doomed[i]) == s.pool.busy(doomed[i]));
        assert(s4.parked == s.parked);
    }
    lemma_destroy_all(s4, doomed);
    lemma_destroy_all_calm(s4, doomed, o);
    assert forall|a: ActivityId, b: OutputId| #[trigger] s5.view_of(a, b) == s4.view_of(a, b) by {
        if let Some(y) = s4.view_of(a, b) {
            assert forall|x: WorkspaceId| #[trigger] y.ids.contains(x) implies !doomed.contains(x)
                || s4.pool.shared(x) by {
                assert(s4.shows_on(a, b, x));
            }
        }
        lemma_destroy_all_view(s4, doomed, a, b);
    }
    lemma_same_work_trans(s.pool, s4.pool, s5.pool, o);
    assert(no_new_routes(s.pool, s5.pool, o)) by {
        assert forall|x: WorkspaceId| #[trigger] bound_for(s5.pool, x, o) implies bound_for(
            s.pool,
            x,
            o,
        ) by {
            assert(s5.pool.has(x));
            assert(bound_for(s4.pool, x, o));
        }
    }
    lemma_whole_views(s);
    lemma_same_ids(s.acts, s5.acts);
    assert(s5.complete()) by {
        assert forall|i: int, k: int| 0 <= i < s5.acts.list.len() && 0 <= k
            < s5.monitors.len() implies s5.view_of(
            (#[trigger] s5.acts.list[i]).id,
            (#[trigger] s5.monitors[k]).output.id,
        ) is Some by {
            let a = s5.acts.list[i].id;
            lemma_act_pos(s5.acts, i);
            assert(s5.acts.has(a));
            assert(s.acts.has(a));
            let b = s5.monitors[k].output.id;
            assert(s0.monitors[k].output == s2.monitors[k].output);
            assert(s2.monitors[k].output == s4.monitors[k].output);
            assert(s4.monitors[k].output == s5.monitors[k].output);
            let l = if k < idx {
                k
            } else {
                k + 1
            };
            assert(s0.monitors[k] == s.monitors[l]);
            assert(apart(s.monitors[l].output, o));
            assert(s.view_of(a, s.monitors[l].output.id) is Some);
            assert(s5.view_of(a, b) == s4.view_of(a, b));
        }
    }
    crate::promises::lemma_ensure_rows_idle(s5, s5.acts.list.len() as int);
    assert(t == s5);
    assert(t.open_for(out)) by {
        assert forall|a: ActivityId, k: int| #![trigger t.view_of(a, t.monitors[k].output.id)]
            t.acts.has(a) && 0 <= k < t.monitors.len() implies t.view_of(
            a,
            t.monitors[k].output.id,
        ) is Some by {
            lemma_act(t.acts, a);
            assert(t.acts.list[t.acts.pos(a).unwrap()].id == a);
        }
        assert forall|k: int| 0 <= k < t.monitors.len() implies (
        #[trigger] t.monitors[k]).output.id != out by {
            assert(s0.monitors[k].output == s2.monitors[k].output);
            assert(s2.monitors[k].output == s4.monitors[k].output);
            assert(s4.monitors[k].output == s5.monitors[k].output);
            let l = if k < idx {
                k
            } else {
                k + 1
            };
            assert(s0.monitors[k] == s.monitors[l]);
            assert(apart(s.monitors[l].output, o));
        }
        assert forall|a: ActivityId| #[trigger] t.view_of(a, out) is None by {
            assert(s5.view_of(a, out) == s4.view_of(a, out));
        }
    }
    let p = s0.primary;
    assert(s2.monitors[p].output == s4.monitors[p].output);
    assert(s4.monitors[p].output == s5.monitors[p].output);
    let w = t.view_of(act, home.id).unwrap();
    lemma_filter(s.active_view(out).unwrap().ids, worth_keeping(s.pool));
    assert forall|x: WorkspaceId| #[trigger] w.ids.contains(x) implies s.shows_on(act, home.id, x)
        || (s.shows_on(act, out, x) && s.pool.busy(x)) || !s.pool.has(x) by {}
}

/// What is destroyed when a monitor is disconnected is empty, and shown nowhere else or shared.
pub proof fn lemma_doomed_away(s: LayoutModel, idx: int)
    requires
        s.whole(),
        s.monitors.len() > 1,
        0 <= idx < s.monitors.len(),
        0 <= s.primary,
        s.stands_alone(idx),
        s.taken_in(idx).fits(),
        s.taken_in(idx).acts.ids() == s.acts.ids(),
    ensures
        forall|x: WorkspaceId| #[trigger] s.emptied(idx).contains(x) ==> !s.pool.busy(x),
        forall|x: WorkspaceId, a: ActivityId, b: OutputId|
            s.emptied(idx).contains(x) && #[trigger] s.moved_in(idx).shows_on(a, b, x)
                ==> s.moved_in(idx).pool.shared(x),
{
    let o = s.monitors[idx].output;
    let out = o.id;
    let act = s.acts.active;
    let home = s.refuge_from(idx).id;
    lemma_unplugged(s, idx);
    lemma_taken_in(s, idx);
    lemma_moved_in(s, idx);
    let s2 = s.taken_in(idx);
    let s4 = s.moved_in(idx);
    let doomed = s.emptied(idx);
    let kept = s.carried(idx);
    let v = s.view_of(act, out).unwrap();
    let here = v.ids.filter(idle(s.pool));
    let others = residents(s2.acts.list, out);
    let there = others.filter(idle(s2.pool));
    lemma_filter(v.ids, idle(s.pool));
    lemma_filter(v.ids, worth_keeping(s.pool));
    lemma_filter(others, idle(s2.pool));
    lemma_firsts(here + there);
    let n = s2.acts.list.len() as int;
    assert(s2.acts.list.take(n) =~= s2.acts.list);
    lemma_residents(s2, n, out);
    assert forall|x: WorkspaceId| #[trigger] doomed.contains(x) implies !s.pool.busy(x) && exists|
        a: ActivityId,
    | #[trigger] s.shows_on(a, out, x) by {
        let all = here + there;
        assert(all.contains(x));
        let k = choose|k: int| 0 <= k < all.len() && all[k] == x;
        if k < here.len() {
            assert(here[k] == x);
            assert(here.contains(x));
            assert(s.shows_on(act, out, x));
        } else {
            assert(there[k - here.len()] == x);
            assert(there.contains(x));
            assert(s2.pool.busy(x) == s.pool.busy(x));
            let i = choose|i: int|
                0 <= i < n && s2.shows_on((#[trigger] s2.acts.list[i]).id, out, x);
            let a = s2.acts.list[i].id;
            assert(s2.view_of(a, out) is Some);
            assert(a != act);
            assert(s2.view_of(a, out) == s.view_of(a, out));
            assert(s.shows_on(a, out, x));
        }
    }
    assert forall|x: WorkspaceId, a: ActivityId, b: OutputId|
        doomed.contains(x) && #[trigger] s4.shows_on(a, b, x) implies s4.pool.shared(x) by {
        let c = choose|c: ActivityId| #[trigger] s.shows_on(c, out, x);
        lemma_view_is_ok(s, c, out);
        assert(s.pool.member(x, c));
        assert(!s.pool.busy(x));
        assert(b != out) by {
            assert(s4.view_of(a, out) is None);
        }
        lemma_view_is_ok(s4, a, b);
        assert(s4.pool.member(x, a));
        assert(s.shows_on(a, b, x)) by {
            if b == home {
                if a == act {
                    if kept.contains(x) {
                        assert(s.pool.busy(x));
                    }
                } else {
                    lemma_same_ids(s.acts, s4.acts);
                    lemma_act(s4.acts, a);
                    assert(s4.acts.has(a));
                    assert(s.acts.has(a));
                    let z = s.view_of(a, home).unwrap();
                    let ids = view_core(s.pool, s.view_of(a, out));
                    lemma_view_is_ok(s, a, home);
                    lemma_spliced_holds(z, ids, x);
                    if ids.contains(x) {
                        lemma_filter(s.view_of(a, out).unwrap().ids, worth_keeping(s.pool));
                    }
                }
            } else {
                assert(s4.view_of(a, b) == s.view_of(a, b));
            }
        }
        assert(a != c);
        lemma_alike(s2.pool, s4.pool);
        assert(s4.pool.pos(x) == s2.pool.pos(x));
        assert(s2.pool.has(x));
        assert(s2.pool.member(x, c));
        assert(s4.pool.member(x, c));
        lemma_two_members(s4.pool, x, a, c);
    }
}

/// What a spliced view shows.
pub proof fn lemma_spliced_holds(v: ViewModel, ids: Seq<WorkspaceId>, x: WorkspaceId)
    requires
        spliced(v, ids).ids.contains(x),
        v.ids.len() > 0,
    ensures
        v.ids.contains(x) || ids.contains(x),
{
    let w = spliced(v, ids).ids;
    let n = v.ids.len() - 1;
    let k = choose|k: int| 0 <= k < w.len() && w[k] == x;
    if k < n {
        assert(v.ids[k] == x);
    } else if k < n + ids.len() {
        assert(ids[k - n] == x);
    } else {
        assert(v.ids[n] == x);
    }
}

/// Taking one of several outputs out moves what was on it to another one and changes nothing else:
/// what has windows or a name goes, in order, below what that one shows, activity by activity, and
/// every other view is as it was.
pub proof fn lemma_taken_out(s: LayoutModel, idx: int)
    requires
        s.whole(),
        s.monitors.len() > 1,
        0 <= idx < s.monitors.len(),
        0 <= s.primary,
        s.stands_alone(idx),
        s.remove_output(idx).fits(),
    ensures
        ({
            let t = s.remove_output(idx);
            let o = s.monitors[idx].output;
            let home = s.refuge_from(idx);
            &&& t.coherent()
            &&& same_work(s.pool, t.pool, o)
            &&& forall|a: ActivityId| #[trigger] t.view_of(a, o.id) is None
            &&& forall|a: ActivityId, b: OutputId|
                b != o.id && b != home.id ==> #[trigger] t.view_of(a, b) == s.view_of(a, b)
            &&& forall|a: ActivityId| #[trigger]
                s.acts.has(a) ==> view_core(t.pool, t.view_of(a, home.id)) == view_core(
                    s.pool,
                    s.view_of(a, home.id),
                ) + view_core(s.pool, s.view_of(a, o.id))
        }),
{
    let t = s.remove_output(idx);
    let o = s.monitors[idx].output;
    let home = s.refuge_from(idx);
    let act = s.acts.active;
    lemma_fold(s, idx);
    lemma_unplugged(s, idx);
    lemma_same_core(s.pool, t.pool, o);
    assert forall|a: ActivityId| #[trigger] s.acts.has(a) implies view_core(
        t.pool,
        t.view_of(a, home.id),
    ) == view_core(s.pool, s.view_of(a, home.id)) + view_core(s.pool, s.view_of(a, o.id)) by {
        let z = s.view_of(a, home.id).unwrap();
        let ids = view_core(s.pool, s.view_of(a, o.id));
        lemma_view_is_ok(s, a, home.id);
        lemma_spliced_core(s.pool, z, ids);
        lemma_core_of_core(s.pool, s.view_of(a, o.id));
    }
}

/// The core of a core is that core.
pub proof fn lemma_core_of_core(pool: PoolModel, v: Option<ViewModel>)
    ensures
        busy_of(pool, view_core(pool, v)) == view_core(pool, v),
{
    let p = worth_keeping(pool);
    match v {
        Some(w) => {
            lemma_filter_filter(w.ids, p, p);
        },
        None => {
            lemma_filter_none(Seq::<WorkspaceId>::empty(), p);
        },
    }
}

} // verus!
