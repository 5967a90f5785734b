//! Sweeping, opening and filling views keeps the layout coherent.

use vstd::prelude::*;

use crate::activity::{keyed, ActivityModel};
use crate::coherence::{
    activity_ok, grows, lemma_act, lemma_add_view_coherent, lemma_get, lemma_pos_of, lemma_push,
    lemma_push_coherent, lemma_put_coherent, lemma_same_ids, lemma_view_is_ok,
    lemma_with_view_coherent, view_ok,
};
use crate::ids::{ActivityId, OutputId, WorkspaceId};
use crate::keeping::{lemma_destroy, lemma_destroy_all};
use crate::layout::LayoutModel;
use crate::materialize::{framed, ids_of, routed, strip, strip_others, tagged};
use crate::pool::PoolModel;
use crate::reclaim::{doubled, kept, pruned, swept};
use crate::search::{equal_to, lemma_find_from};
use crate::view::ViewModel;
use crate::workspace::WorkspaceModel;

verus! {

/// A filtered sequence holds what was there and is picked, and repeats nothing that was not.
pub proof fn lemma_filter(s: Seq<WorkspaceId>, p: spec_fn(WorkspaceId) -> bool)
    ensures
        forall|x: WorkspaceId| #[trigger] s.filter(p).contains(x) <==> (s.contains(x) && p(x)),
        s.no_duplicates() ==> s.filter(p).no_duplicates(),
        s.filter(p).len() <= s.len(),
    decreases s.len(),
{
    reveal(Seq::filter);
    if s.len() > 0 {
        let rest = s.drop_last();
        lemma_filter(rest, p);
        let f = s.filter(p);
        let g = rest.filter(p);
        let last = s.last();
        assert(s == rest.push(last));
        assert forall|x: WorkspaceId| #[trigger] f.contains(x) <==> (s.contains(x) && p(x)) by {
            if s.contains(x) && p(x) {
                let k = choose|k: int| 0 <= k < s.len() && s[k] == x;
                if k < rest.len() {
                    assert(rest[k] == x);
                    assert(rest.contains(x));
                    assert(g.contains(x));
                    let j = choose|j: int| 0 <= j < g.len() && g[j] == x;
                    assert(f[j] == x);
                } else {
                    assert(f[f.len() - 1] == x);
                }
            }
            if f.contains(x) {
                let j = choose|j: int| 0 <= j < f.len() && f[j] == x;
                if j < g.len() {
                    assert(g[j] == x);
                    assert(g.contains(x));
                    let k = choose|k: int| 0 <= k < rest.len() && rest[k] == x;
                    assert(s[k] == x);
                } else {
                    assert(s[s.len() - 1] == x);
                }
            }
        }
        if s.no_duplicates() {
            assert(rest.no_duplicates()) by {
                assert forall|i: int, j: int|
                    0 <= i < rest.len() && 0 <= j < rest.len() && i != j implies rest[i]
                    != rest[j] by {
                    assert(s[i] != s[j]);
                }
            }
            if p(last) {
                assert(!g.contains(last)) by {
                    if g.contains(last) {
                        let k = choose|k: int| 0 <= k < rest.len() && rest[k] == last;
                        assert(s[k] == s[s.len() - 1]);
                    }
                }
                assert forall|i: int, j: int|
                    0 <= i < f.len() && 0 <= j < f.len() && i != j implies f[i] != f[j] by {
                    if i < g.len() && j < g.len() {
                        assert(g[i] != g[j]);
                    } else if i < g.len() {
                        assert(g.contains(g[i]));
                    } else {
                        assert(g.contains(g[j]));
                    }
                }
            }
        }
    }
}

/// A swept view is usable and shows nothing new.
pub proof fn lemma_swept(pool: PoolModel, v: ViewModel, leading: bool)
    requires
        v.wf(),
    ensures
        swept(pool, v, leading).wf(),
        forall|x: WorkspaceId| #[trigger] swept(pool, v, leading).ids.contains(x) <==> (
        v.ids.contains(x) && kept(pool, v, leading)(x)),
{
    lemma_filter(v.ids, kept(pool, v, leading));
    let w = swept(pool, v, leading);
    assert(w.ids.contains(v.active));
}

/// Sweeping the active view of a monitor keeps the layout coherent.
pub proof fn lemma_clean_up(s: LayoutModel, mon: int)
    requires
        s.coherent(),
        0 <= mon < s.monitors.len(),
    ensures
        s.clean_up(mon).coherent(),
        forall|x: WorkspaceId| #[trigger] s.clean_up(mon).pool.has(x) ==> s.pool.has(x) && s.clean_up(
            mon,
        ).pool.get(x) == s.pool.get(x),
        forall|x: WorkspaceId| #[trigger] s.pool.busy(x) ==> s.clean_up(mon).pool.get(x)
            == s.pool.get(x),
{
    let m = s.monitors[mon];
    let leading = m.empty_workspace_above_first;
    let act = s.acts.active;
    if let Some(v) = s.active_view(m.output.id) {
        if v.ids.len() > 0 {
            lemma_view_is_ok(s, act, m.output.id);
            let v1 = swept(s.pool, v, leading);
            lemma_swept(s.pool, v, leading);
            let gone = v.ids.filter(pruned(s.pool, v, leading));
            lemma_filter(v.ids, pruned(s.pool, v, leading));
            let v2 = if doubled(s.pool, v1, leading) {
                v1.remove_at(1)
            } else {
                v1
            };
            let ids = if doubled(s.pool, v1, leading) {
                gone.push(v1.ids[1])
            } else {
                gone
            };
            if doubled(s.pool, v1, leading) {
                crate::view::lemma_remove_wf(v1, 1);
            }
            let t = s.with_view(act, m.output.id, v2);
            lemma_with_view_coherent(s, act, m.output.id, v2);
            lemma_destroy_all(t, ids);
            assert forall|x: WorkspaceId| #[trigger] s.pool.busy(x) implies s.clean_up(
                mon,
            ).pool.get(x) == s.pool.get(x) by {
                assert(!ids.contains(x)) by {
                    if ids.contains(x) {
                        let k = choose|k: int| 0 <= k < ids.len() && ids[k] == x;
                        if k < gone.len() {
                            assert(gone[k] == x);
                            assert(gone.contains(x));
                        }
                    }
                }
                assert(t.destroy_all(ids).pool.get(x) == t.pool.get(x));
            }
        }
    }
}

/// Reclaiming a workspace keeps the layout coherent.
pub proof fn lemma_reclaim(s: LayoutModel, id: WorkspaceId)
    requires
        s.coherent(),
        s.monitors.len() > 0,
    ensures
        s.reclaim(id).coherent(),
{
    let act = s.pool.get(id).unwrap().activities[0];
    if let Some(e) = s.holding_entry(act, id) {
        assert(s.snap_output(e.output).coherent());
        lemma_destroy(s, id);
        lemma_destroy(s.snap_output(e.output), id);
    }
}

/// Reclaiming workspaces keeps the layout coherent.
pub proof fn lemma_reclaim_all(s: LayoutModel, ids: Seq<WorkspaceId>)
    requires
        s.coherent(),
        s.monitors.len() > 0,
    ensures
        s.reclaim_all(ids).coherent(),
        s.reclaim_all(ids).monitors.len() == s.monitors.len(),
    decreases ids.len(),
{
    if ids.len() > 0 {
        lemma_reclaim_all(s, ids.drop_last());
        lemma_reclaim(s.reclaim_all(ids.drop_last()), ids.last());
        crate::reclaim::lemma_reclaim_leads(s.reclaim_all(ids.drop_last()), ids.last());
    }
}

/// Bringing a view down keeps the layout coherent.
pub proof fn lemma_collapse(s: LayoutModel, act: ActivityId, out: OutputId)
    requires
        s.coherent(),
        s.monitors.len() > 0,
    ensures
        s.collapse(act, out).coherent(),
{
    if let Some(v) = s.view_of(act, out) {
        assert(s.snap_output(out).coherent());
        lemma_destroy(s, v.ids[1]);
        lemma_destroy(s.snap_output(out), v.ids[1]);
    }
}

/// A stripped view is usable and shows nothing new.
pub proof fn lemma_strip(v: ViewModel, ids: Seq<WorkspaceId>)
    requires
        v.wf(),
    ensures
        strip(v, ids).wf(),
        forall|x: WorkspaceId| #[trigger] strip(v, ids).ids.contains(x) ==> v.ids.contains(x),
    decreases ids.len(),
{
    if ids.len() > 0 {
        lemma_strip(v, ids.drop_last());
        let r = strip(v, ids.drop_last());
        lemma_find_from(r.ids, equal_to(ids.last()), 0);
        if let Some(p) = r.position_of(ids.last()) {
            if r.ids.len() > 1 {
                crate::view::lemma_remove_wf(r, p);
            }
        }
    }
}

/// The ids of the workspaces that a filter picks: they are in the pool, and none repeats.
pub proof fn lemma_ids_of_filter(p: PoolModel, f: spec_fn(WorkspaceModel) -> bool, n: int)
    requires
        p.wf(),
        0 <= n <= p.items.len(),
    ensures
        ({
            let ids = ids_of(p.items.take(n).filter(f));
            &&& ids.no_duplicates()
            &&& forall|x: WorkspaceId| #[trigger]
                ids.contains(x) <==> exists|i: int| 0 <= i < n && f(#[trigger] p.items[i])
                    && p.items[i].id == x
        }),
    decreases n,
{
    reveal(Seq::filter);
    let s = p.items.take(n);
    let ids = ids_of(s.filter(f));
    if n > 0 {
        lemma_ids_of_filter(p, f, n - 1);
        let r = p.items.take(n - 1);
        let prev = ids_of(r.filter(f));
        assert(s.drop_last() =~= r);
        let last = p.items[n - 1];
        assert(s.last() == last);
        if f(last) {
            assert(ids =~= prev.push(last.id));
            assert(!prev.contains(last.id)) by {
                if prev.contains(last.id) {
                    let i = choose|i: int| 0 <= i < n - 1 && f(#[trigger] p.items[i]) && p.items[i].id
                        == last.id;
                    assert(p.items[i].id.0 < p.items[n - 1].id.0);
                }
            }
            assert forall|x: WorkspaceId| #[trigger] ids.contains(x) <==> exists|i: int|
                0 <= i < n && f(#[trigger] p.items[i]) && p.items[i].id == x by {
                if ids.contains(x) {
                    let k = choose|k: int| 0 <= k < ids.len() && ids[k] == x;
                    if k < prev.len() {
                        assert(prev[k] == x);
                        assert(prev.contains(x));
                        let i = choose|i: int| 0 <= i < n - 1 && f(#[trigger] p.items[i])
                            && p.items[i].id == x;
                        assert(f(p.items[i]) && p.items[i].id == x);
                    } else {
                        assert(f(p.items[n - 1]) && p.items[n - 1].id == x);
                    }
                }
                if exists|i: int| 0 <= i < n && f(#[trigger] p.items[i]) && p.items[i].id == x {
                    let i = choose|i: int| 0 <= i < n && f(#[trigger] p.items[i]) && p.items[i].id
                        == x;
                    if i < n - 1 {
                        assert(prev.contains(x));
                        let k = choose|k: int| 0 <= k < prev.len() && prev[k] == x;
                        assert(ids[k] == x);
                    } else {
                        assert(ids[ids.len() - 1] == x);
                    }
                }
            }
        } else {
            assert(ids =~= prev);
            assert forall|x: WorkspaceId| #[trigger] ids.contains(x) <==> exists|i: int|
                0 <= i < n && f(#[trigger] p.items[i]) && p.items[i].id == x by {
                if prev.contains(x) {
                    let i = choose|i: int| 0 <= i < n - 1 && f(#[trigger] p.items[i]) && p.items[i].id
                        == x;
                    assert(f(p.items[i]) && p.items[i].id == x);
                }
                if exists|i: int| 0 <= i < n && f(#[trigger] p.items[i]) && p.items[i].id == x {
                    let i = choose|i: int| 0 <= i < n && f(#[trigger] p.items[i]) && p.items[i].id
                        == x;
                    assert(i < n - 1);
                    assert(prev.contains(x));
                }
            }
        }
    } else {
        assert(s.filter(f) =~= Seq::empty());
        assert(ids =~= Seq::empty());
    }
}

/// What is routed to an output for an activity belongs to the activity.
pub proof fn lemma_tagged(p: PoolModel, act: ActivityId, out: OutputId)
    requires
        p.wf(),
    ensures
        tagged(p, act, out).no_duplicates(),
        forall|x: WorkspaceId| #[trigger] tagged(p, act, out).contains(x) <==> (p.member(x, act)
            && p.get(x).unwrap().output_id == Some(out)),
{
    let f = routed(act, out);
    let n = p.items.len() as int;
    lemma_ids_of_filter(p, f, n);
    assert(p.items.take(n) =~= p.items);
    assert forall|x: WorkspaceId| #[trigger] tagged(p, act, out).contains(x) <==> (p.member(x, act)
        && p.get(x).unwrap().output_id == Some(out)) by {
        lemma_get(p, x);
        if tagged(p, act, out).contains(x) {
            let i = choose|i: int| 0 <= i < n && f(#[trigger] p.items[i]) && p.items[i].id == x;
            lemma_pos_of(p, i);
        }
        if p.member(x, act) && p.get(x).unwrap().output_id == Some(out) {
            let i = p.pos(x).unwrap();
            assert(f(p.items[i]) && p.items[i].id == x);
        }
    }
}

/// The view that opens over `body` is usable and shows just that and the new workspaces.
pub proof fn lemma_framed(body: Seq<WorkspaceId>, bottom: WorkspaceId, top: Option<WorkspaceId>)
    requires
        body.no_duplicates(),
        !body.contains(bottom),
        match top {
            Some(t) => !body.contains(t) && t != bottom,
            None => true,
        },
    ensures
        framed(body, bottom, top).wf(),
        forall|x: WorkspaceId| #[trigger] framed(body, bottom, top).ids.contains(x) <==> (
        body.contains(x) || x == bottom || top == Some(x)),
{
    let v = framed(body, bottom, top);
    match top {
        Some(t) => {
            let ids = seq![t] + body.push(bottom);
            assert(v.ids == ids);
            assert forall|i: int| 0 <= i < ids.len() implies #[trigger] ids[i] == if i == 0 {
                t
            } else if i == ids.len() - 1 {
                bottom
            } else {
                body[i - 1]
            } by {}
            assert forall|i: int, j: int|
                0 <= i < ids.len() && 0 <= j < ids.len() && i != j implies ids[i] != ids[j] by {
                if 0 < i < ids.len() - 1 {
                    assert(body.contains(body[i - 1]));
                }
                if 0 < j < ids.len() - 1 {
                    assert(body.contains(body[j - 1]));
                }
            }
            assert forall|x: WorkspaceId| #[trigger] ids.contains(x) <==> (body.contains(x) || x
                == bottom || top == Some(x)) by {
                if ids.contains(x) {
                    let i = choose|i: int| 0 <= i < ids.len() && ids[i] == x;
                    if 0 < i < ids.len() - 1 {
                        assert(body[i - 1] == x);
                    }
                }
                if body.contains(x) {
                    let i = choose|i: int| 0 <= i < body.len() && body[i] == x;
                    assert(ids[i + 1] == x);
                }
                if x == bottom {
                    assert(ids[ids.len() - 1] == x);
                }
                if x == t {
                    assert(ids[0] == x);
                }
            }
            assert(ids.contains(ids[1]));
        },
        None => {
            let ids = body.push(bottom);
            assert(v.ids == ids);
            assert forall|i: int, j: int|
                0 <= i < ids.len() && 0 <= j < ids.len() && i != j implies ids[i] != ids[j] by {
                if i < body.len() {
                    assert(body.contains(body[i]));
                }
                if j < body.len() {
                    assert(body.contains(body[j]));
                }
            }
            assert forall|x: WorkspaceId| #[trigger] ids.contains(x) <==> (body.contains(x) || x
                == bottom || top == Some(x)) by {
                if ids.contains(x) {
                    let i = choose|i: int| 0 <= i < ids.len() && ids[i] == x;
                    if i < body.len() {
                        assert(body[i] == x);
                    }
                }
                if body.contains(x) {
                    let i = choose|i: int| 0 <= i < body.len() && body[i] == x;
                    assert(ids[i] == x);
                }
                if x == bottom {
                    assert(ids[ids.len() - 1] == x);
                }
            }
            assert(ids.contains(ids[0]));
        },
    }
}

/// A new empty workspace of a live activity keeps the layout coherent.
pub proof fn lemma_mint(s: LayoutModel, out: OutputId, act: ActivityId)
    requires
        s.coherent(),
        s.acts.has(act),
        s.pool.next < u64::MAX,
    ensures
        (LayoutModel { pool: s.pool.mint(out, act), ..s }).coherent(),
        s.pool.mint(out, act).member(s.pool.next_id(), act),
        !s.pool.has(s.pool.next_id()),
        grows(s.pool, s.pool.mint(out, act)),
        forall|x: WorkspaceId| x != s.pool.next_id() ==> #[trigger] s.pool.mint(out, act).get(x)
            == s.pool.get(x),
        s.pool.mint(out, act).get(s.pool.next_id()) == Some(
            WorkspaceModel::fresh(s.pool.next_id(), out, act),
        ),
{
    let w = WorkspaceModel::fresh(s.pool.next_id(), out, act);
    assert(w.activities[0] == act);
    lemma_push(s.pool, w);
    lemma_push_coherent(s, w);
}

impl LayoutModel {
    /// A view of monitor `mon` opened for activity `act` over `body`, which moves in from the
    /// activity's other views.
    pub open spec fn open_over(self, mon: int, act: ActivityId, body: Seq<WorkspaceId>) -> LayoutModel {
        let m = self.monitors[mon];
        let out = m.output.id;
        let bottom = self.pool.next_id();
        let p1 = self.pool.mint(out, act);
        let leads = body.len() > 0 && m.empty_workspace_above_first;
        match self.acts.get(act) {
            Some(a) => LayoutModel {
                pool: if leads {
                    p1.mint(out, act)
                } else {
                    p1
                },
                acts: (if body.len() > 0 {
                    self.acts.put(
                        act,
                        ActivityModel { views: strip_others(a.views, out, body), ..a },
                    )
                } else {
                    self.acts
                }).add_view(
                    act,
                    out,
                    framed(
                        body,
                        bottom,
                        if leads {
                            Some(p1.next_id())
                        } else {
                            None
                        },
                    ),
                ),
                ..self
            },
            None => self,
        }
    }
}

/// Opening a view keeps the layout coherent.
pub proof fn lemma_open_view(s: LayoutModel, mon: int, act: ActivityId)
    requires
        s.coherent(),
        s.view_of(act, s.monitors[mon].output.id) is None,
        s.open_view(mon, act).fits(),
    ensures
        s.open_view(mon, act).coherent(),
        forall|x: WorkspaceId| #[trigger] s.pool.has(x) ==> s.open_view(mon, act).pool.get(x)
            == s.pool.get(x),
{
    let out = s.monitors[mon].output.id;
    lemma_tagged(s.pool, act, out);
    lemma_open_over(s, mon, act, tagged(s.pool, act, out));
}

/// Opening a view over workspaces of its activity keeps the layout coherent.
pub proof fn lemma_open_over(s: LayoutModel, mon: int, act: ActivityId, body: Seq<WorkspaceId>)
    requires
        s.coherent(),
        s.view_of(act, s.monitors[mon].output.id) is None,
        body.no_duplicates(),
        forall|x: WorkspaceId| #[trigger] body.contains(x) ==> s.pool.member(x, act),
        s.open_over(mon, act, body).fits(),
    ensures
        s.open_over(mon, act, body).coherent(),
        forall|x: WorkspaceId| #[trigger] s.pool.has(x) ==> s.open_over(mon, act, body).pool.get(x)
            == s.pool.get(x),
{
    let m = s.monitors[mon];
    let out = m.output.id;
    let bottom = s.pool.next_id();
    if let Some(a) = s.acts.get(act) {
        lemma_act(s.acts, act);
        lemma_mint(s, out, act);
        let p1 = s.pool.mint(out, act);
        let s1 = LayoutModel { pool: p1, ..s };
        assert(!body.contains(bottom));
        lemma_find_from(a.views, keyed(out), 0);
        if body.len() == 0 {
            lemma_framed(body, bottom, None);
            let v = framed(body, bottom, None);
            assert(view_ok(p1, act, v));
            lemma_add_view_coherent(s1, act, out, v);
        } else {
            let b = ActivityModel { views: strip_others(a.views, out, body), ..a };
            let stripped = s.acts.put(act, b);
            let top = if m.empty_workspace_above_first {
                Some(p1.next_id())
            } else {
                None
            };
            if m.empty_workspace_above_first {
                lemma_mint(s1, out, act);
            }
            let p2 = if m.empty_workspace_above_first {
                p1.mint(out, act)
            } else {
                p1
            };
            let s2 = LayoutModel { pool: p2, ..s };
            assert(s2.coherent());
            assert(activity_ok(p2, s2.acts.list[s.acts.pos(act).unwrap()]));
            assert(activity_ok(p2, b)) by {
                assert forall|j: int| 0 <= j < b.views.len() implies view_ok(
                    p2,
                    b.id,
                    (#[trigger] b.views[j]).view,
                ) by {
                    assert(view_ok(p2, a.id, a.views[j].view));
                    lemma_strip(a.views[j].view, body);
                }
                assert forall|i: int, j: int| 0 <= i < j < b.views.len() implies (
                #[trigger] b.views[i]).output != (#[trigger] b.views[j]).output by {
                    assert(a.views[i].output != a.views[j].output);
                }
            }
            lemma_put_coherent(s2, act, b);
            let s3 = LayoutModel { acts: stripped, ..s2 };
            assert(s3.view_of(act, out) is None) by {
                lemma_act(stripped, act);
                lemma_same_ids(s.acts, stripped);
                lemma_find_from(b.views, keyed(out), 0);
                if let Some(j) = b.view_pos(out) {
                    assert(a.views[j].output == out);
                }
            }
            assert(top is Some ==> top.unwrap() != bottom && !body.contains(top.unwrap())) by {
                if top is Some && body.contains(top.unwrap()) {
                    assert(s.pool.member(top.unwrap(), act));
                    assert(p1.member(top.unwrap(), act));
                }
            }
            lemma_framed(body, bottom, top);
            let v = framed(body, bottom, top);
            assert(view_ok(p2, act, v)) by {
                assert forall|x: WorkspaceId| #[trigger] v.ids.contains(x) implies p2.member(
                    x,
                    act,
                ) by {
                    if body.contains(x) {
                        assert(s.pool.member(x, act));
                        assert(p1.member(x, act));
                    } else if x == bottom {
                        assert(p1.member(x, act));
                    }
                }
            }
            lemma_add_view_coherent(s3, act, out, v);
        }
    }
    assert forall|x: WorkspaceId| #[trigger] s.pool.has(x) implies s.open_over(
        mon,
        act,
        body,
    ).pool.get(x) == s.pool.get(x) by {
        if s.acts.get(act) is Some {
            let p1 = s.pool.mint(out, act);
            assert(x != bottom);
            assert(p1.get(x) == s.pool.get(x));
            if p1.next_id() == x {
                assert(p1.has(x));
            }
        }
    }
}

/// Opening a view where there is none keeps the layout coherent.
pub proof fn lemma_ensure_row(s: LayoutModel, act: ActivityId, n: int)
    requires
        s.coherent(),
        s.ensure_row(act, n).fits(),
    ensures
        s.ensure_row(act, n).coherent(),
        forall|x: WorkspaceId| #[trigger] s.pool.has(x) ==> s.ensure_row(act, n).pool.get(x)
            == s.pool.get(x),
    decreases n,
{
    if n > 0 {
        let t = s.ensure_row(act, n - 1);
        crate::materialize::lemma_ensure_row_leads(s, act, n - 1, n - 1);
        crate::materialize::lemma_ensure_view_leads(t, n - 1, act);
        lemma_ensure_row(s, act, n - 1);
        if t.view_of(act, t.monitors[n - 1].output.id) is None {
            lemma_open_view(t, n - 1, act);
            assert forall|x: WorkspaceId| #[trigger] s.pool.has(x) implies s.ensure_row(
                act,
                n,
            ).pool.get(x) == s.pool.get(x) by {
                assert(t.pool.get(x) == s.pool.get(x));
                assert(t.pool.has(x));
            }
        }
    }
}

/// Opening views keeps the layout coherent.
pub proof fn lemma_ensure_rows(s: LayoutModel, n: int)
    requires
        s.coherent(),
        s.ensure_rows(n).fits(),
    ensures
        s.ensure_rows(n).coherent(),
        forall|x: WorkspaceId| #[trigger] s.pool.has(x) ==> s.ensure_rows(n).pool.get(x)
            == s.pool.get(x),
    decreases n,
{
    if n > 0 {
        let t = s.ensure_rows(n - 1);
        let act = s.acts.list[n - 1].id;
        let k = s.monitors.len() as int;
        crate::materialize::lemma_ensure_rows_leads(s, n - 1, n - 1);
        crate::materialize::lemma_ensure_row_leads(t, act, 0, k);
        lemma_ensure_rows(s, n - 1);
        lemma_ensure_row(t, act, k);
        assert forall|x: WorkspaceId| #[trigger] s.pool.has(x) implies s.ensure_rows(
            n,
        ).pool.get(x) == s.pool.get(x) by {
            assert(t.pool.get(x) == s.pool.get(x));
            assert(t.pool.has(x));
        }
    }
}

/// Opening every missing view keeps the layout coherent and changes no workspace.
pub proof fn lemma_ensure_all(s: LayoutModel)
    requires
        s.coherent(),
        s.ensure_all().fits(),
    ensures
        s.ensure_all().coherent(),
        forall|x: WorkspaceId| #[trigger] s.pool.has(x) ==> s.ensure_all().pool.get(x)
            == s.pool.get(x),
{
    lemma_ensure_rows(s, s.acts.list.len() as int);
}

/// A workspace of the activity put into its view keeps the layout coherent.
pub proof fn lemma_install_into(s: LayoutModel, act: ActivityId, out: OutputId, id: WorkspaceId)
    requires
        s.coherent(),
        s.pool.member(id, act),
    ensures
        s.install_into(act, out, id).coherent(),
{
    if let Some(v) = s.view_of(act, out) {
        lemma_view_is_ok(s, act, out);
        lemma_find_from(v.ids, equal_to(id), 0);
        if v.position_of(id) is None {
            let pos = crate::transfer::landing(s.pool, v, id);
            crate::view::lemma_insert_wf(v, pos, id);
            lemma_with_view_coherent(s, act, out, v.insert(pos, id));
        }
    }
}

} // verus!
