//! What a view is made of apart from its empty workspaces, and which steps leave that alone.

use vstd::prelude::*;

use crate::coherence::{lemma_get, lemma_get_put, lemma_view_is_ok, lemma_with_view_coherent};
use crate::connect::bound_for;
use crate::ids::{ActivityId, OutputId, WorkspaceId};
use crate::keeping::{lemma_destroy, lemma_destroy_all, lemma_mint_into, rid};
use crate::keeping_views::{lemma_filter, lemma_mint, lemma_swept};
use crate::layout::LayoutModel;
use crate::outputs::worth_keeping;
use crate::pool::PoolModel;
use crate::reclaim::{doubled, kept, pruned, swept};
use crate::search::{equal_to, lemma_find_from};
use crate::transfer::{lemma_view_after_set, lemma_view_after_set_other};
use crate::view::ViewModel;
use crate::workspace::{Output, WorkspaceModel};

verus! {

/// A filter does not see an element put in that it does not pick.
pub proof fn lemma_filter_insert(
    s: Seq<WorkspaceId>,
    i: int,
    x: WorkspaceId,
    p: spec_fn(WorkspaceId) -> bool,
)
    requires
        0 <= i <= s.len(),
        !p(x),
    ensures
        s.insert(i, x).filter(p) == s.filter(p),
{
    let one = seq![x];
    assert(s.insert(i, x) =~= s.take(i) + (one + s.skip(i)));
    assert(s =~= s.take(i) + s.skip(i));
    Seq::filter_distributes_over_add(s.take(i), one + s.skip(i), p);
    Seq::filter_distributes_over_add(one, s.skip(i), p);
    Seq::filter_distributes_over_add(s.take(i), s.skip(i), p);
    lemma_filter_none(one, p);
    assert(one.filter(p) + s.skip(i).filter(p) =~= s.skip(i).filter(p));
}

/// A filter does not miss an element taken out that it does not pick.
pub proof fn lemma_filter_remove(s: Seq<WorkspaceId>, i: int, p: spec_fn(WorkspaceId) -> bool)
    requires
        0 <= i < s.len(),
        !p(s[i]),
    ensures
        s.remove(i).filter(p) == s.filter(p),
{
    lemma_filter_insert(s.remove(i), i, s[i], p);
    assert(s.remove(i).insert(i, s[i]) =~= s);
}

/// A filter does not notice an earlier one that lets through all that it picks.
pub proof fn lemma_filter_filter(
    s: Seq<WorkspaceId>,
    k: spec_fn(WorkspaceId) -> bool,
    p: spec_fn(WorkspaceId) -> bool,
)
    requires
        forall|i: int| 0 <= i < s.len() && #[trigger] p(s[i]) ==> k(s[i]),
    ensures
        s.filter(k).filter(p) == s.filter(p),
    decreases s.len(),
{
    reveal(Seq::filter);
    if s.len() > 0 {
        let rest = s.drop_last();
        assert forall|i: int| 0 <= i < rest.len() && #[trigger] p(rest[i]) implies k(rest[i]) by {
            assert(p(s[i]));
        }
        lemma_filter_filter(rest, k, p);
        let last = s.last();
        assert(p(last) ==> k(last)) by {
            assert(last == s[s.len() - 1]);
        }
        if k(last) {
            let f = rest.filter(k).push(last);
            assert(f.drop_last() =~= rest.filter(k));
            assert(f.last() == last);
        }
    }
}

/// A filter that picks everything changes nothing.
pub proof fn lemma_filter_all(s: Seq<WorkspaceId>, p: spec_fn(WorkspaceId) -> bool)
    requires
        forall|i: int| 0 <= i < s.len() ==> #[trigger] p(s[i]),
    ensures
        s.filter(p) == s,
    decreases s.len(),
{
    reveal(Seq::filter);
    if s.len() > 0 {
        let rest = s.drop_last();
        assert forall|i: int| 0 <= i < rest.len() implies #[trigger] p(rest[i]) by {
            assert(p(s[i]));
        }
        lemma_filter_all(rest, p);
        assert(p(s[s.len() - 1]));
        assert(s =~= rest.push(s.last()));
    }
}

/// A filter that picks nothing leaves nothing.
pub proof fn lemma_filter_none(s: Seq<WorkspaceId>, p: spec_fn(WorkspaceId) -> bool)
    requires
        forall|i: int| 0 <= i < s.len() ==> !(#[trigger] p(s[i])),
    ensures
        s.filter(p) == Seq::<WorkspaceId>::empty(),
    decreases s.len(),
{
    reveal(Seq::filter);
    if s.len() > 0 {
        let rest = s.drop_last();
        assert forall|i: int| 0 <= i < rest.len() implies !(#[trigger] p(rest[i])) by {
            assert(!p(s[i]));
        }
        lemma_filter_none(rest, p);
        assert(!p(s[s.len() - 1]));
    } else {
        assert(s =~= Seq::<WorkspaceId>::empty());
    }
}

/// The workspaces with windows or a name among `ids`, in order.
pub open spec fn busy_of(pool: PoolModel, ids: Seq<WorkspaceId>) -> Seq<WorkspaceId> {
    ids.filter(worth_keeping(pool))
}

/// The workspaces with windows or a name that view `v` shows, if there is one.
pub open spec fn view_core(pool: PoolModel, v: Option<ViewModel>) -> Seq<WorkspaceId> {
    match v {
        Some(w) => busy_of(pool, w.ids),
        None => Seq::empty(),
    }
}

/// `a` and `b` are the same workspace with the same windows, name and activities. Which output it
/// is on may differ.
pub open spec fn kin(a: WorkspaceModel, b: WorkspaceModel) -> bool {
    &&& a.id == b.id
    &&& a.name == b.name
    &&& a.activities == b.activities
    &&& a.sticky == b.sticky
    &&& a.tiles == b.tiles
    &&& a.active == b.active
    &&& a.scroll_lock == b.scroll_lock
    &&& a.view_gesture == b.view_gesture
}

/// The same workspaces have windows or a name in `p` and `q`; each is unchanged but for the output
/// that it is on, and routed to `o` in both or in neither, in the same way or by its id.
pub open spec fn same_work(p: PoolModel, q: PoolModel, o: Output) -> bool {
    &&& forall|x: WorkspaceId| #[trigger] q.busy(x) == p.busy(x)
    &&& forall|x: WorkspaceId| #[trigger]
        p.busy(x) ==> kin(p.get(x).unwrap(), q.get(x).unwrap()) && bound_for(q, x, o) == bound_for(
            p,
            x,
            o,
        ) && rerouted(p.get(x).unwrap(), q.get(x).unwrap(), o)
}

/// If `a` is routed to `o`, `b` is routed like it, or to `o` by its id.
pub open spec fn rerouted(a: WorkspaceModel, b: WorkspaceModel, o: Output) -> bool {
    match a.output_id {
        Some(out) => out.designates(o) ==> b.output_id == a.output_id || b.output_id == Some(o.id),
        None => true,
    }
}

/// View `w` shows the same workspaces with windows or a name as view `v`, in the same order, and
/// the same one is active if it has any.
pub open spec fn kept_view(pool: PoolModel, v: Option<ViewModel>, w: Option<ViewModel>) -> bool {
    &&& view_core(pool, w) == view_core(pool, v)
    &&& match v {
        Some(a) => pool.busy(a.active) ==> match w {
            Some(b) => b.active == a.active,
            None => false,
        },
        None => true,
    }
}

/// Nothing but empty workspaces came or went between `s` and `t`.
pub open spec fn calm(s: LayoutModel, t: LayoutModel, o: Output) -> bool {
    &&& same_work(s.pool, t.pool, o)
    &&& t.acts.active == s.acts.active
    &&& forall|a: ActivityId, out: OutputId|
        kept_view(s.pool, s.view_of(a, out), #[trigger] t.view_of(a, out))
}

/// A filter for workspaces with windows or a name picks the same before and after.
pub proof fn lemma_same_core(p: PoolModel, q: PoolModel, o: Output)
    requires
        same_work(p, q, o),
    ensures
        worth_keeping(p) == worth_keeping(q),
{
    assert forall|x: WorkspaceId| #[trigger] worth_keeping(p)(x) == worth_keeping(q)(x) by {
        assert(q.busy(x) == p.busy(x));
    }
    assert(worth_keeping(p) =~= worth_keeping(q));
}

/// Work that stays the same in two steps stays the same.
pub proof fn lemma_same_work_trans(p: PoolModel, q: PoolModel, r: PoolModel, o: Output)
    requires
        same_work(p, q, o),
        same_work(q, r, o),
    ensures
        same_work(p, r, o),
{
    assert forall|x: WorkspaceId| #[trigger] r.busy(x) == p.busy(x) by {
        assert(q.busy(x) == p.busy(x));
    }
    assert forall|x: WorkspaceId| #[trigger] p.busy(x) implies kin(
        p.get(x).unwrap(),
        r.get(x).unwrap(),
    ) && bound_for(r, x, o) == bound_for(p, x, o) && rerouted(
        p.get(x).unwrap(),
        r.get(x).unwrap(),
        o,
    ) by {
        assert(q.busy(x) == p.busy(x));
        assert(bound_for(q, x, o) == bound_for(p, x, o));
    }
}

/// Two calm steps make one.
pub proof fn lemma_calm_trans(s: LayoutModel, t: LayoutModel, u: LayoutModel, o: Output)
    requires
        calm(s, t, o),
        calm(t, u, o),
    ensures
        calm(s, u, o),
{
    lemma_same_work_trans(s.pool, t.pool, u.pool, o);
    lemma_same_core(s.pool, t.pool, o);
    assert forall|a: ActivityId, out: OutputId| kept_view(
        s.pool,
        s.view_of(a, out),
        #[trigger] u.view_of(a, out),
    ) by {
        assert(kept_view(s.pool, s.view_of(a, out), t.view_of(a, out)));
        assert(kept_view(t.pool, t.view_of(a, out), u.view_of(a, out)));
        if let Some(v) = s.view_of(a, out) {
            assert(t.pool.busy(v.active) == s.pool.busy(v.active));
        }
    }
}

/// A step that leaves the pool and the views alone is calm.
pub proof fn lemma_calm_still(s: LayoutModel, t: LayoutModel, o: Output)
    requires
        t.pool == s.pool,
        t.acts == s.acts,
    ensures
        calm(s, t, o),
{
}

/// A step that changes only where workspaces are is calm.
pub proof fn lemma_calm_pool(s: LayoutModel, q: PoolModel, o: Output)
    requires
        same_work(s.pool, q, o),
    ensures
        calm(s, LayoutModel { pool: q, ..s }, o),
{
}

/// Unbinding changes no work.
pub proof fn lemma_unbind_work(p: PoolModel, id: WorkspaceId, o: Output)
    requires
        p.wf(),
    ensures
        same_work(p, p.unbind(id), o),
{
    lemma_get(p, id);
    if let Some(w) = p.get(id) {
        lemma_get_put(p, id, w.unbind());
        let q = p.unbind(id);
        assert forall|x: WorkspaceId| #[trigger] q.busy(x) == p.busy(x) by {
            assert(x != id ==> q.get(x) == p.get(x));
        }
        assert forall|x: WorkspaceId| #[trigger] p.busy(x) implies kin(
            p.get(x).unwrap(),
            q.get(x).unwrap(),
        ) && bound_for(q, x, o) == bound_for(p, x, o) by {
            assert(x != id ==> q.get(x) == p.get(x));
        }
    }
}

/// The designations of `a` and `b` differ.
pub open spec fn apart(a: Output, b: Output) -> bool {
    a.id != b.id && a.id != b.connector && a.connector != b.id && a.connector != b.connector
}

/// Binding to another output, or to the output itself, changes no work.
pub proof fn lemma_bind_work(p: PoolModel, id: WorkspaceId, output: Output, o: Output)
    requires
        p.wf(),
        apart(output, o) || (output == o && o.id.0 != 0),
    ensures
        same_work(p, p.bind(id, output), o),
{
    lemma_get(p, id);
    if let Some(w) = p.get(id) {
        lemma_get_put(p, id, w.bind(output));
        let q = p.bind(id, output);
        assert forall|x: WorkspaceId| #[trigger] q.busy(x) == p.busy(x) by {
            assert(x != id ==> q.get(x) == p.get(x));
        }
        assert forall|x: WorkspaceId| #[trigger] p.busy(x) implies kin(
            p.get(x).unwrap(),
            q.get(x).unwrap(),
        ) && bound_for(q, x, o) == bound_for(p, x, o) by {
            assert(x != id ==> q.get(x) == p.get(x));
        }
    }
}

/// Unbinding workspaces changes no work.
pub proof fn lemma_unbind_all_work(p: PoolModel, ids: Seq<WorkspaceId>, o: Output)
    requires
        p.wf(),
    ensures
        same_work(p, p.unbind_all(ids), o),
    decreases ids.len(),
{
    if ids.len() > 0 {
        let q = p.unbind_all(ids.drop_last());
        lemma_unbind_all_work(p, ids.drop_last(), o);
        crate::keeping_outputs::lemma_unbind_all_alike(p, ids.drop_last());
        crate::coherence::lemma_alike(p, q);
        lemma_unbind_work(q, ids.last(), o);
        lemma_same_work_trans(p, q, p.unbind_all(ids), o);
    }
}

/// Binding workspaces to another output, or to the output itself, changes no work.
pub proof fn lemma_bind_all_work(p: PoolModel, ids: Seq<WorkspaceId>, output: Output, o: Output)
    requires
        p.wf(),
        apart(output, o) || (output == o && o.id.0 != 0),
    ensures
        same_work(p, p.bind_all(ids, output), o),
    decreases ids.len(),
{
    if ids.len() > 0 {
        let q = p.bind_all(ids.drop_last(), output);
        lemma_bind_all_work(p, ids.drop_last(), output, o);
        crate::keeping_outputs::lemma_bind_all_alike(p, ids.drop_last(), output);
        crate::coherence::lemma_alike(p, q);
        lemma_bind_work(q, ids.last(), output, o);
        lemma_same_work_trans(p, q, p.bind_all(ids, output), o);
    }
}

/// A view rid of an empty workspace keeps the others.
pub proof fn lemma_rid_kept(pool: PoolModel, v: ViewModel, id: WorkspaceId)
    requires
        v.wf(),
        !pool.busy(id),
    ensures
        kept_view(pool, Some(v), rid(v, id)),
{
    lemma_find_from(v.ids, equal_to(id), 0);
    if let Some(p) = v.position_of(id) {
        assert(v.ids[p] == id);
        lemma_filter_remove(v.ids, p, worth_keeping(pool));
        if v.ids.len() == 1 {
            assert(v.ids.remove(p) =~= Seq::<WorkspaceId>::empty());
            assert(v.active == id);
            reveal(Seq::filter);
        }
    }
}

/// Destroying an empty workspace is calm.
pub proof fn lemma_destroy_calm(s: LayoutModel, id: WorkspaceId, o: Output)
    requires
        s.coherent(),
        !s.pool.busy(id),
        s.pool.shared(id) || !s.parked.contains(id),
    ensures
        calm(s, s.destroy(id), o),
{
    let t = s.destroy(id);
    lemma_destroy(s, id);
    if !s.pool.shared(id) {
        assert forall|x: WorkspaceId| #[trigger] t.pool.busy(x) == s.pool.busy(x) by {
            if x != id {
                assert(t.pool.get(x) == s.pool.get(x));
            }
        }
        assert forall|x: WorkspaceId| #[trigger] s.pool.busy(x) implies kin(
            s.pool.get(x).unwrap(),
            t.pool.get(x).unwrap(),
        ) && bound_for(t.pool, x, o) == bound_for(s.pool, x, o) by {
            assert(t.pool.get(x) == s.pool.get(x));
        }
        assert forall|a: ActivityId, out: OutputId| kept_view(
            s.pool,
            s.view_of(a, out),
            #[trigger] t.view_of(a, out),
        ) by {
            lemma_view_is_ok(s, a, out);
            if let Some(v) = s.view_of(a, out) {
                lemma_rid_kept(s.pool, v, id);
            }
        }
    }
}

/// Destroying empty workspaces is calm.
pub proof fn lemma_destroy_all_calm(s: LayoutModel, ids: Seq<WorkspaceId>, o: Output)
    requires
        s.coherent(),
        forall|i: int|
            0 <= i < ids.len() ==> !s.pool.busy(#[trigger] ids[i]) && (s.pool.shared(ids[i])
                || !s.parked.contains(ids[i])),
    ensures
        calm(s, s.destroy_all(ids), o),
    decreases ids.len(),
{
    if ids.len() > 0 {
        let rest = ids.drop_last();
        let id = ids.last();
        assert forall|i: int| 0 <= i < rest.len() implies !s.pool.busy(#[trigger] rest[i]) && (
        s.pool.shared(rest[i]) || !s.parked.contains(rest[i])) by {
            assert(rest[i] == ids[i]);
        }
        lemma_destroy_all_calm(s, rest, o);
        lemma_destroy_all(s, rest);
        crate::reclaim::lemma_destroy_all_leads(s, rest);
        let t = s.destroy_all(rest);
        assert(id == ids[ids.len() - 1]);
        assert(!s.pool.busy(id));
        assert(t.pool.busy(id) == s.pool.busy(id));
        assert(s.pool.shared(id) ==> t.pool.get(id) == s.pool.get(id));
        lemma_destroy_calm(t, id, o);
        lemma_calm_trans(s, t, s.destroy_all(ids), o);
    }
}

/// Replacing a view by one that keeps its core is calm.
pub proof fn lemma_with_view_calm(s: LayoutModel, act: ActivityId, out: OutputId, v: ViewModel, o: Output)
    requires
        s.view_of(act, out) is Some,
        kept_view(s.pool, s.view_of(act, out), Some(v)),
    ensures
        calm(s, s.with_view(act, out, v), o),
{
    let t = s.with_view(act, out, v);
    lemma_view_after_set(s.acts, act, out, v);
    assert forall|a: ActivityId, b: OutputId| kept_view(
        s.pool,
        s.view_of(a, b),
        #[trigger] t.view_of(a, b),
    ) by {
        if a != act || b != out {
            lemma_view_after_set_other(s.acts, act, out, v, a, b);
        }
    }
}

/// Sweeping is calm.
pub proof fn lemma_clean_up_calm(s: LayoutModel, mon: int, o: Output)
    requires
        s.coherent(),
        0 <= mon < s.monitors.len(),
    ensures
        calm(s, s.clean_up(mon), o),
{
    let m = s.monitors[mon];
    let leading = m.empty_workspace_above_first;
    let act = s.acts.active;
    let out = m.output.id;
    if let Some(v) = s.active_view(out) {
        if v.ids.len() > 0 {
            lemma_view_is_ok(s, act, out);
            let v1 = swept(s.pool, v, leading);
            lemma_swept(s.pool, v, leading);
            lemma_filter_filter(v.ids, kept(s.pool, v, leading), worth_keeping(s.pool));
            let gone = v.ids.filter(pruned(s.pool, v, leading));
            lemma_filter(v.ids, pruned(s.pool, v, leading));
            let two = doubled(s.pool, v1, leading);
            let v2 = if two {
                v1.remove_at(1)
            } else {
                v1
            };
            let ids = if two {
                gone.push(v1.ids[1])
            } else {
                gone
            };
            if two {
                crate::view::lemma_remove_wf(v1, 1);
                lemma_filter_remove(v1.ids, 1, worth_keeping(s.pool));
            }
            assert(kept_view(s.pool, Some(v), Some(v2)));
            let t = s.with_view(act, out, v2);
            lemma_with_view_coherent(s, act, out, v2);
            lemma_with_view_calm(s, act, out, v2, o);
            assert forall|i: int| 0 <= i < ids.len() implies !t.pool.busy(#[trigger] ids[i]) && (
            t.pool.shared(ids[i]) || !t.parked.contains(ids[i])) by {
                if i < gone.len() {
                    assert(gone[i] == ids[i]);
                    assert(gone.contains(ids[i]));
                }
            }
            lemma_destroy_all_calm(t, ids, o);
            lemma_calm_trans(s, t, s.clean_up(mon), o);
        } else {
            lemma_calm_still(s, s.clean_up(mon), o);
        }
    } else {
        lemma_calm_still(s, s.clean_up(mon), o);
    }
}

/// Putting in a new empty workspace is calm.
pub proof fn lemma_mint_into_calm(s: LayoutModel, mon: int, act: ActivityId, pos: int, o: Output)
    requires
        s.coherent(),
        0 <= mon < s.monitors.len(),
        s.mint_into(mon, act, pos).fits(),
        match s.view_of(act, s.monitors[mon].output.id) {
            Some(v) => 0 <= pos <= v.ids.len(),
            None => true,
        },
    ensures
        calm(s, s.mint_into(mon, act, pos), o),
{
    let out = s.monitors[mon].output.id;
    if let Some(v) = s.view_of(act, out) {
        let t = s.mint_into(mon, act, pos);
        let id = s.pool.next_id();
        crate::coherence::lemma_act(s.acts, act);
        lemma_mint(s, out, act);
        let s1 = LayoutModel { pool: s.pool.mint(out, act), ..s };
        assert forall|x: WorkspaceId| #[trigger] s1.pool.busy(x) == s.pool.busy(x) by {
            if x != id {
                assert(s1.pool.get(x) == s.pool.get(x));
            }
        }
        assert forall|x: WorkspaceId| #[trigger] s.pool.busy(x) implies kin(
            s.pool.get(x).unwrap(),
            s1.pool.get(x).unwrap(),
        ) && bound_for(s1.pool, x, o) == bound_for(s.pool, x, o) by {
            assert(s1.pool.get(x) == s.pool.get(x));
        }
        lemma_calm_pool(s, s1.pool, o);
        lemma_filter_insert(v.ids, pos, id, worth_keeping(s1.pool));
        assert(!s1.pool.busy(id));
        lemma_with_view_calm(s1, act, out, v.insert(pos, id), o);
        let s2 = s1.with_view(act, out, v.insert(pos, id));
        lemma_calm_trans(s, s1, s2, o);
        lemma_calm_still(s2, t, o);
        lemma_calm_trans(s, s2, t, o);
    } else {
        lemma_calm_still(s, s.mint_into(mon, act, pos), o);
    }
}

/// Putting in missing bookends is calm.
pub proof fn lemma_normalize_view_calm(s: LayoutModel, mon: int, act: ActivityId, o: Output)
    requires
        s.coherent(),
        0 <= mon < s.monitors.len(),
        s.normalize_view(mon, act).fits(),
    ensures
        calm(s, s.normalize_view(mon, act), o),
{
    let m = s.monitors[mon];
    let out = m.output.id;
    let t = s.normalize_view(mon, act);
    match s.view_of(act, out) {
        Some(v) => {
            if v.ids.len() > 0 {
                let n = v.ids.len() as int;
                let low = s.pool.busy(v.ids.last());
                let lower = if low {
                    s.mint_into(mon, act, n)
                } else {
                    s
                };
                crate::bookends::lemma_mint_into_leads(s, mon, act, n);
                crate::bookends::lemma_mint_into_leads(lower, mon, act, 0);
                if low {
                    lemma_mint_into(s, mon, act, n);
                    lemma_mint_into_calm(s, mon, act, n, o);
                } else {
                    lemma_calm_still(s, lower, o);
                }
                if m.empty_workspace_above_first && s.pool.busy(v.ids[0]) {
                    lemma_mint_into_calm(lower, mon, act, 0, o);
                    lemma_calm_trans(s, lower, t, o);
                }
            } else {
                lemma_calm_still(s, t, o);
            }
        },
        None => {
            lemma_calm_still(s, t, o);
        },
    }
}

} // verus!
