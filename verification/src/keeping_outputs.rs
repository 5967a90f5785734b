//! Connecting and disconnecting outputs keeps the layout coherent.

use vstd::prelude::*;

use crate::coherence::{
    activity_ok, acts_ok, alike, lemma_act, lemma_act_pos, lemma_alike, lemma_alike_coherent,
    lemma_drop_view_ok, lemma_get, lemma_put_alike, lemma_same_ids, lemma_view_is_ok,
    lemma_with_view_coherent, member_ok, view_ok,
};
use crate::disconnect::{firsts, residents};
use crate::ids::{ActivityId, OutputId, WorkspaceId};
use crate::layout::LayoutModel;
use crate::pool::PoolModel;
use crate::transfer::spliced;
use crate::view::ViewModel;
use crate::workspace::Output;

verus! {

/// Being alike goes from one pool to the next.
pub proof fn lemma_alike_trans(p: PoolModel, q: PoolModel, r: PoolModel)
    requires
        alike(p, q),
        alike(q, r),
    ensures
        alike(p, r),
{
    assert forall|i: int| 0 <= i < p.items.len() implies (#[trigger] p.items[i]).id
        == r.items[i].id && p.items[i].activities == r.items[i].activities by {
        assert(q.items[i].id == r.items[i].id);
    }
}

/// Binding and unbinding touch neither ids nor activities.
pub proof fn lemma_bind_alike(p: PoolModel, id: WorkspaceId, output: Output)
    ensures
        alike(p, p.bind(id, output)),
        alike(p, p.unbind(id)),
{
    lemma_get(p, id);
    if let Some(w) = p.get(id) {
        lemma_put_alike(p, id, w.bind(output));
        lemma_put_alike(p, id, w.unbind());
    }
}

/// Binding workspaces touches neither ids nor activities.
pub proof fn lemma_bind_all_alike(p: PoolModel, ids: Seq<WorkspaceId>, output: Output)
    ensures
        alike(p, p.bind_all(ids, output)),
    decreases ids.len(),
{
    if ids.len() > 0 {
        let q = p.bind_all(ids.drop_last(), output);
        lemma_bind_all_alike(p, ids.drop_last(), output);
        lemma_bind_alike(q, ids.last(), output);
        lemma_alike_trans(p, q, q.bind(ids.last(), output));
    }
}

/// Unbinding workspaces touches neither ids nor activities.
pub proof fn lemma_unbind_all_alike(p: PoolModel, ids: Seq<WorkspaceId>)
    ensures
        alike(p, p.unbind_all(ids)),
    decreases ids.len(),
{
    if ids.len() > 0 {
        let q = p.unbind_all(ids.drop_last());
        lemma_unbind_all_alike(p, ids.drop_last());
        lemma_bind_alike(q, ids.last(), Output { id: OutputId(0), connector: OutputId(0) });
        lemma_alike_trans(p, q, q.unbind(ids.last()));
    }
}

/// A view with workspaces put in above its last one shows those and what it showed.
pub proof fn lemma_spliced(v: ViewModel, ids: Seq<WorkspaceId>)
    requires
        v.wf(),
        ids.no_duplicates(),
        forall|x: WorkspaceId| #[trigger] ids.contains(x) ==> !v.ids.contains(x),
    ensures
        spliced(v, ids).wf(),
        forall|x: WorkspaceId| #[trigger] spliced(v, ids).ids.contains(x) <==> (v.ids.contains(x)
            || ids.contains(x)),
        spliced(v, ids).ids.last() == v.ids.last(),
        spliced(v, ids).ids.len() == v.ids.len() + ids.len(),
{
    let n = v.ids.len() - 1;
    let k = ids.len() as int;
    let w = spliced(v, ids).ids;
    assert forall|i: int| 0 <= i < w.len() implies #[trigger] w[i] == if i < n {
        v.ids[i]
    } else if i < n + k {
        ids[i - n]
    } else {
        v.ids[n]
    } by {}
    assert forall|i: int, j: int| 0 <= i < w.len() && 0 <= j < w.len() && i != j implies w[i]
        != w[j] by {
        if n <= i < n + k {
            assert(ids.contains(ids[i - n]));
            if j < n {
                assert(v.ids.contains(v.ids[j]));
            } else if j >= n + k {
                assert(v.ids.contains(v.ids[n]));
            }
        } else if n <= j < n + k {
            assert(ids.contains(ids[j - n]));
            if i < n {
                assert(v.ids.contains(v.ids[i]));
            } else {
                assert(v.ids.contains(v.ids[n]));
            }
        }
    }
    assert forall|x: WorkspaceId| #[trigger] w.contains(x) <==> (v.ids.contains(x) || ids.contains(
        x,
    )) by {
        if w.contains(x) {
            let i = choose|i: int| 0 <= i < w.len() && w[i] == x;
            if i < n {
                assert(v.ids[i] == x);
            } else if i < n + k {
                assert(ids[i - n] == x);
            } else {
                assert(v.ids[n] == x);
            }
        }
        if v.ids.contains(x) {
            let i = choose|i: int| 0 <= i < v.ids.len() && v.ids[i] == x;
            if i < n {
                assert(w[i] == x);
            } else {
                assert(w[n + k] == x);
            }
        }
        if ids.contains(x) {
            let i = choose|i: int| 0 <= i < ids.len() && ids[i] == x;
            assert(w[n + i] == x);
        }
    }
}

/// Ending a workspace switch keeps the layout coherent.
pub proof fn lemma_settle(s: LayoutModel, mon: int)
    requires
        s.coherent(),
        0 <= mon < s.monitors.len(),
    ensures
        s.settle(mon).coherent(),
{
}

/// Dropping the views of an output keeps the layout coherent.
pub proof fn lemma_drop_views(s: LayoutModel, out: OutputId)
    requires
        s.coherent(),
    ensures
        s.drop_views(out).coherent(),
        s.drop_views(out).acts.ids() == s.acts.ids(),
        forall|a: ActivityId| #[trigger] s.drop_views(out).view_of(a, out) is None,
        forall|a: ActivityId, o: OutputId| o != out ==> #[trigger] s.drop_views(out).view_of(a, o)
            == s.view_of(a, o),
{
    let t = s.drop_views(out);
    assert forall|i: int| 0 <= i < s.acts.list.len() implies (#[trigger] t.acts.list[i]).id
        == s.acts.list[i].id by {
        assert(activity_ok(s.pool, s.acts.list[i]));
        lemma_drop_view_ok(s.pool, s.acts.list[i], out);
    }
    assert(t.acts.ids() =~= s.acts.ids());
    lemma_same_ids(s.acts, t.acts);
    assert forall|i: int| 0 <= i < t.acts.list.len() implies activity_ok(
        t.pool,
        #[trigger] t.acts.list[i],
    ) by {
        assert(activity_ok(s.pool, s.acts.list[i]));
        lemma_drop_view_ok(s.pool, s.acts.list[i], out);
    }
    assert forall|i: int| 0 <= i < t.pool.items.len() implies member_ok(
        t.acts,
        #[trigger] t.pool.items[i],
    ) by {
        assert(member_ok(s.acts, s.pool.items[i]));
    }
    assert(acts_ok(t.acts));
    assert forall|a: ActivityId| #[trigger] t.view_of(a, out) is None by {
        lemma_act(s.acts, a);
        assert(t.acts.pos(a) == s.acts.pos(a));
        if let Some(i) = s.acts.pos(a) {
            assert(activity_ok(s.pool, s.acts.list[i]));
            lemma_drop_view_ok(s.pool, s.acts.list[i], out);
        }
    }
    assert forall|a: ActivityId, o: OutputId| o != out implies #[trigger] t.view_of(a, o)
        == s.view_of(a, o) by {
        lemma_act(s.acts, a);
        assert(t.acts.pos(a) == s.acts.pos(a));
        if let Some(i) = s.acts.pos(a) {
            assert(activity_ok(s.pool, s.acts.list[i]));
            lemma_drop_view_ok(s.pool, s.acts.list[i], out);
        }
    }
}

/// Moving workspaces of an activity over into its view of another output keeps the layout
/// coherent.
pub proof fn lemma_migrate_all(s: LayoutModel, act: ActivityId, ids: Seq<WorkspaceId>, output: Output)
    requires
        s.coherent(),
        ids.no_duplicates(),
        forall|x: WorkspaceId| #[trigger] ids.contains(x) ==> s.pool.member(x, act),
        match s.view_of(act, output.id) {
            Some(v) => forall|x: WorkspaceId| #[trigger] ids.contains(x) ==> !v.ids.contains(x),
            None => true,
        },
    ensures
        s.migrate_all(act, ids, output).coherent(),
        alike(s.pool, s.migrate_all(act, ids, output).pool),
        s.migrate_all(act, ids, output).acts.ids() == s.acts.ids(),
        forall|a: ActivityId, o: OutputId|
            a != act || o != output.id ==> #[trigger] s.migrate_all(act, ids, output).view_of(a, o)
                == s.view_of(a, o),
        match s.view_of(act, output.id) {
            Some(v) => match s.migrate_all(act, ids, output).view_of(act, output.id) {
                Some(w) => forall|x: WorkspaceId| #[trigger]
                    w.ids.contains(x) <==> (v.ids.contains(x) || ids.contains(x)),
                None => false,
            },
            None => s.migrate_all(act, ids, output).view_of(act, output.id) is None,
        },
    decreases ids.len(),
{
    if ids.len() > 0 {
        let rest = ids.drop_last();
        let id = ids.last();
        assert(rest.no_duplicates()) by {
            assert forall|i: int, j: int|
                0 <= i < rest.len() && 0 <= j < rest.len() && i != j implies rest[i] != rest[j] by {
                assert(ids[i] != ids[j]);
            }
        }
        assert forall|x: WorkspaceId| #[trigger] rest.contains(x) implies ids.contains(x) && x
            != id by {
            let k = choose|k: int| 0 <= k < rest.len() && rest[k] == x;
            assert(ids[k] == x);
            assert(ids[k] != ids[ids.len() - 1]);
        }
        assert(ids.contains(id));
        assert forall|x: WorkspaceId| ids.contains(x) implies #[trigger] rest.contains(x) || x
            == id by {
            let k = choose|k: int| 0 <= k < ids.len() && ids[k] == x;
            if k < rest.len() {
                assert(rest[k] == x);
            }
        }
        lemma_migrate_all(s, act, rest, output);
        let t = s.migrate_all(act, rest, output);
        crate::disconnect::lemma_migrate_leads(t, act, id, output);
        lemma_alike(s.pool, t.pool);
        lemma_bind_alike(t.pool, id, output);
        lemma_bind_alike(t.pool.unbind(id), id, output);
        let q = t.pool.unbind(id).bind(id, output);
        lemma_alike_trans(t.pool, t.pool.unbind(id), q);
        lemma_alike_trans(s.pool, t.pool, q);
        let t1 = LayoutModel { pool: q, ..t };
        lemma_alike_coherent(t, q);
        lemma_alike(t.pool, q);
        let r = s.migrate_all(act, ids, output);
        assert(r == t.migrate(act, id, output));
        if let Some(v) = t1.view_of(act, output.id) {
            lemma_view_is_ok(t1, act, output.id);
            if v.ids.len() > 0 {
                let v1 = v.insert(v.ids.len() - 1, id);
                assert(!v.ids.contains(id));
                crate::view::lemma_insert_wf(v, v.ids.len() - 1, id);
                assert(s.pool.member(id, act));
                assert(view_ok(q, act, v1));
                lemma_with_view_coherent(t1, act, output.id, v1);
                crate::transfer::lemma_view_after_set(t1.acts, act, output.id, v1);
                assert forall|a: ActivityId, o: OutputId|
                    a != act || o != output.id implies #[trigger] t1.with_view(
                    act,
                    output.id,
                    v1,
                ).view_of(a, o) == s.view_of(a, o) by {
                    crate::transfer::lemma_view_after_set_other(
                        t1.acts,
                        act,
                        output.id,
                        v1,
                        a,
                        o,
                    );
                    assert(t.view_of(a, o) == s.view_of(a, o));
                }
                assert(r == t1.with_view(act, output.id, v1));
            } else {
                assert(r == t1);
            }
        } else {
            assert(r == t1);
        }
        assert forall|a: ActivityId, o: OutputId| a != act || o != output.id implies #[trigger] r.view_of(
            a,
            o,
        ) == s.view_of(a, o) by {
            if r == t1 {
                assert(t1.view_of(a, o) == t.view_of(a, o));
                assert(t.view_of(a, o) == s.view_of(a, o));
            }
        }
    }
}

impl LayoutModel {
    /// No activity shows a workspace on two outputs.
    pub open spec fn shown_once(self) -> bool {
        forall|act: ActivityId, o1: OutputId, o2: OutputId, x: WorkspaceId|
            o1 != o2 && #[trigger] self.shows_on(act, o1, x) ==> !(#[trigger] self.shows_on(
                act,
                o2,
                x,
            ))
    }

    /// Whether activity `act` shows workspace `x` on output `o`.
    pub open spec fn shows_on(self, act: ActivityId, o: OutputId, x: WorkspaceId) -> bool {
        match self.view_of(act, o) {
            Some(v) => v.ids.contains(x),
            None => false,
        }
    }
}

/// What the activities show on an output belongs to the pool.
pub proof fn lemma_residents(s: LayoutModel, n: int, out: OutputId)
    requires
        s.coherent(),
        0 <= n <= s.acts.list.len(),
    ensures
        forall|x: WorkspaceId| #[trigger] residents(s.acts.list.take(n), out).contains(x)
            <==> exists|i: int| 0 <= i < n && s.shows_on((#[trigger] s.acts.list[i]).id, out, x),
    decreases n,
{
    let all = s.acts.list.take(n);
    if n > 0 {
        lemma_residents(s, n - 1, out);
        assert(all.drop_last() =~= s.acts.list.take(n - 1));
        let a = s.acts.list[n - 1];
        assert(all.last() == a);
        lemma_act_pos(s.acts, n - 1);
        let before = residents(all.drop_last(), out);
        let here = match a.view_of(out) {
            Some(v) => v.ids,
            None => Seq::empty(),
        };
        let r = residents(all, out);
        assert(r == before + here);
        assert forall|x: WorkspaceId| #[trigger] r.contains(x) <==> exists|i: int|
            0 <= i < n && s.shows_on((#[trigger] s.acts.list[i]).id, out, x) by {
            if r.contains(x) {
                let k = choose|k: int| 0 <= k < r.len() && r[k] == x;
                if k < before.len() {
                    assert(before[k] == x);
                    assert(before.contains(x));
                    let i = choose|i: int|
                        0 <= i < n - 1 && s.shows_on((#[trigger] s.acts.list[i]).id, out, x);
                    assert(s.shows_on(s.acts.list[i].id, out, x));
                } else {
                    assert(here[k - before.len()] == x);
                    assert(s.shows_on(s.acts.list[n - 1].id, out, x));
                }
            }
            if exists|i: int| 0 <= i < n && s.shows_on((#[trigger] s.acts.list[i]).id, out, x) {
                let i = choose|i: int|
                    0 <= i < n && s.shows_on((#[trigger] s.acts.list[i]).id, out, x);
                if i < n - 1 {
                    assert(before.contains(x));
                    let k = choose|k: int| 0 <= k < before.len() && before[k] == x;
                    assert(r[k] == x);
                } else {
                    assert(here.contains(x));
                    let k = choose|k: int| 0 <= k < here.len() && here[k] == x;
                    assert(r[before.len() + k] == x);
                }
            }
        }
    } else {
        assert(all =~= Seq::empty());
    }
}

/// First occurrences: the same elements, none twice.
pub proof fn lemma_firsts(s: Seq<WorkspaceId>)
    ensures
        firsts(s).no_duplicates(),
        forall|x: WorkspaceId| #[trigger] firsts(s).contains(x) <==> s.contains(x),
    decreases s.len(),
{
    if s.len() > 0 {
        let rest = s.drop_last();
        lemma_firsts(rest);
        let f = firsts(rest);
        let g = firsts(s);
        let last = s.last();
        assert(s == rest.push(last));
        assert forall|x: WorkspaceId| #[trigger] g.contains(x) <==> s.contains(x) by {
            if s.contains(x) {
                let k = choose|k: int| 0 <= k < s.len() && s[k] == x;
                if k < rest.len() {
                    assert(rest[k] == x);
                    assert(rest.contains(x));
                    assert(f.contains(x));
                    let j = choose|j: int| 0 <= j < f.len() && f[j] == x;
                    assert(g[j] == x);
                } else if !f.contains(last) {
                    assert(g[g.len() - 1] == x);
                }
            }
            if g.contains(x) {
                let j = choose|j: int| 0 <= j < g.len() && g[j] == x;
                if j < f.len() {
                    assert(f[j] == x);
                    assert(f.contains(x));
                    let k = choose|k: int| 0 <= k < rest.len() && rest[k] == x;
                    assert(s[k] == x);
                } else {
                    assert(s[s.len() - 1] == x);
                }
            }
        }
        assert(g.no_duplicates()) by {
            if !f.contains(last) {
                assert forall|i: int, j: int|
                    0 <= i < g.len() && 0 <= j < g.len() && i != j implies g[i] != g[j] by {
                    if i < f.len() {
                        assert(f.contains(f[i]));
                    }
                    if j < f.len() {
                        assert(f.contains(f[j]));
                    }
                }
            }
        }
    }
}

} // verus!
