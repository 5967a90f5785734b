//! Bringing the layout in line with a configuration leaves it coherent.

use vstd::prelude::*;

use crate::activity::{ActivitiesModel, ActivityModel, EntryModel};
use crate::belonging::{
    lemma_enlist_all, lemma_entry_is_view, lemma_filter_acts, lemma_unshow, lemma_unshow_shrinks,
};
use crate::carrying::lemma_put_keeps;
use crate::changing::{lemma_missing, lemma_reconciled};
use crate::coherence::{
    activity_ok, acts_ok, lemma_act, lemma_act_pos, lemma_get, lemma_get_put, lemma_push_coherent,
    lemma_same_ids, lemma_view_is_ok, member_ok, members_ok, view_ok,
};
use crate::config::{activity_ids, declares, mentioned, WorkspaceDeclModel};
use crate::ids::{ActivityId, OutputId, WorkspaceId};
use crate::keeping::law_normalize_adds_only;
use crate::keeping_views::{lemma_install_into, lemma_open_over, lemma_tagged};
use crate::layout::LayoutModel;
use crate::materialize::tagged;
use crate::pool::PoolModel;
use crate::reconcile::{all_missing, all_strays, strays_among, strays_in, Missing, Stray};
use crate::search::{equal_to, lemma_find_from, lemma_find_map};
use crate::switching::{clashing, elsewhere};
use crate::tending::lemma_attach;
use crate::transfer::{lemma_view_after_set, lemma_view_after_set_other};
use crate::workspace::WorkspaceModel;

verus! {

/// Activities picked from those there are, are there.
pub proof fn lemma_picked_exist(acts: ActivitiesModel, n: int, p: spec_fn(ActivityModel) -> bool)
    requires
        0 <= n <= acts.list.len(),
    ensures
        forall|x: ActivityId| #[trigger] activity_ids(acts.list.take(n).filter(p)).contains(x)
            ==> acts.has(x),
    decreases n,
{
    reveal(Seq::filter);
    let all = acts.list.take(n);
    if n > 0 {
        lemma_picked_exist(acts, n - 1, p);
        assert(all.drop_last() =~= acts.list.take(n - 1));
        let before = all.drop_last().filter(p);
        let ids = activity_ids(all.filter(p));
        assert forall|x: ActivityId| #[trigger] ids.contains(x) implies acts.has(x) by {
            let k = choose|k: int| 0 <= k < ids.len() && ids[k] == x;
            if k < before.len() {
                assert(activity_ids(before)[k] == x);
                assert(activity_ids(before).contains(x));
            } else {
                assert(all.last().id == x);
                lemma_find_from(acts.list, crate::activity::named(x), 0);
                assert(crate::activity::named(x)(acts.list[n - 1]));
            }
        }
    }
}

/// A declared workspace belongs to some activity, and only to ones that are there.
pub proof fn lemma_declared_for(acts: ActivitiesModel, d: WorkspaceDeclModel)
    requires
        acts_ok(acts),
    ensures
        acts.declared_for(d).len() > 0,
        forall|x: ActivityId| #[trigger] acts.declared_for(d).contains(x) ==> acts.has(x),
{
    let n = acts.list.len() as int;
    assert(acts.list.take(n) =~= acts.list);
    lemma_picked_exist(acts, n, mentioned(d.activities));
    lemma_act(acts, acts.active);
    assert(acts.ids().len() == n);
    assert forall|x: ActivityId| #[trigger] acts.declared_for(d).contains(x) implies acts.has(x) by {
        if d.sticky {
            let k = choose|k: int| 0 <= k < acts.ids().len() && acts.ids()[k] == x;
            lemma_act_pos(acts, k);
        }
    }
}

/// Opening a declared workspace keeps the layout coherent, whether it is shown or waits.
pub proof fn law_opening_a_declared_workspace_keeps_coherence(s: LayoutModel, d: WorkspaceDeclModel)
    requires
        s.coherent(),
        s.monitors.len() > 0 ==> 0 <= s.opening_monitor(d) < s.monitors.len(),
        s.ensure_named(d).fits(),
    ensures
        s.ensure_named(d).coherent(),
{
    let t = s.ensure_named(d);
    if s.named_workspace(d.name) is None {
        let members = s.acts.declared_for(d);
        let id = s.pool.next_id();
        let act = s.acts.active;
        lemma_declared_for(s.acts, d);
        if s.monitors.len() == 0 {
            let q = s.pool.mint_declared(d, members, None);
            let w = q.items[s.pool.items.len() as int];
            lemma_push_coherent(s, w);
            crate::coherence::lemma_push(s.pool, w);
            assert forall|i: int| 0 <= i < t.parked.len() implies t.pool.has(
                #[trigger] t.parked[i],
            ) by {
                if i > 0 {
                    assert(t.parked[i] == s.parked[i - 1]);
                    assert(s.pool.has(s.parked[i - 1]));
                }
            }
        } else {
            let mon = s.opening_monitor(d);
            let output = s.monitors[mon].output;
            let q = s.pool.mint_declared(d, members, Some(output.id));
            let w = q.items[s.pool.items.len() as int];
            let s1 = LayoutModel { pool: q, ..s };
            let shown = members.contains(act);
            let s2 = if shown {
                s1.attach(mon, id, 0, false)
            } else {
                LayoutModel { pool: s1.pool.bind(id, output), ..s1 }
            };
            let others = s2.acts.ids().filter(elsewhere(act, members));
            let s3 = s2.enlist_all(others, output.id, id);
            assert(t == s3.normalize());
            crate::arrange::lemma_attach_leads(s1, mon, id, 0, false);
            crate::membership::lemma_enlist_all_leads(s2, others, output.id, id);
            crate::bookends::lemma_normalize_leads(s3);
            lemma_push_coherent(s, w);
            crate::coherence::lemma_push(s.pool, w);
            lemma_get(q, id);
            if shown {
                assert(!s1.shows_on(act, output.id, id)) by {
                    if s1.shows_on(act, output.id, id) {
                        lemma_view_is_ok(s, act, output.id);
                        assert(s.pool.member(id, act));
                        lemma_get(s.pool, id);
                    }
                }
                lemma_attach(s1, mon, id, 0, false);
            } else {
                let b = w.bind(output);
                lemma_put_keeps(s1, id, b);
                lemma_get_put(s1.pool, id, b);
            }
            assert(s2.pool.get(id).unwrap().activities == members);
            lemma_filter_acts(s2.acts.ids(), elsewhere(act, members));
            assert forall|i: int| 0 <= i < others.len() implies s2.pool.member(
                id,
                #[trigger] others[i],
            ) by {
                assert(others.contains(others[i]));
            }
            lemma_enlist_all(s2, others, output.id, id);
            law_normalize_adds_only(s3);
        }
    }
}

/// `q` holds the workspaces of `p`, each in at least the activities that it has in `p`.
pub open spec fn widens(p: PoolModel, q: PoolModel) -> bool {
    &&& p.next == q.next
    &&& p.items.len() == q.items.len()
    &&& forall|i: int|
        0 <= i < p.items.len() ==> (#[trigger] q.items[i]) == (WorkspaceModel {
            activities: q.items[i].activities,
            ..p.items[i]
        })
    &&& forall|i: int, a: ActivityId|
        0 <= i < p.items.len() && #[trigger] p.items[i].activities.contains(a)
            ==> q.items[i].activities.contains(a)
}

/// A wider pool has the same workspaces at the same places.
pub proof fn lemma_widens(p: PoolModel, q: PoolModel)
    requires
        widens(p, q),
    ensures
        forall|x: WorkspaceId| #[trigger] q.pos(x) == p.pos(x),
        forall|x: WorkspaceId| #[trigger] q.has(x) == p.has(x),
        forall|x: WorkspaceId| #[trigger] q.busy(x) == p.busy(x),
        forall|x: WorkspaceId, a: ActivityId| #[trigger] p.member(x, a) ==> q.member(x, a),
        q.wf() == p.wf(),
{
    assert forall|x: WorkspaceId| #[trigger] q.pos(x) == p.pos(x) by {
        let f = crate::pool::has_id(x);
        assert forall|i: int| 0 <= i < p.items.len() implies f(#[trigger] p.items[i]) == f(
            q.items[i],
        ) by {}
        lemma_find_map(p.items, q.items, f, f);
    }
    assert forall|x: WorkspaceId, a: ActivityId| #[trigger] p.member(x, a) implies q.member(
        x,
        a,
    ) by {
        assert(q.pos(x) == p.pos(x));
        lemma_find_from(p.items, crate::pool::has_id(x), 0);
    }
    assert forall|x: WorkspaceId| #[trigger] q.busy(x) == p.busy(x) by {
        assert(q.pos(x) == p.pos(x));
        lemma_find_from(p.items, crate::pool::has_id(x), 0);
    }
    assert forall|x: WorkspaceId| #[trigger] q.has(x) == p.has(x) by {
        assert(q.pos(x) == p.pos(x));
    }
    assert(forall|i: int| 0 <= i < p.items.len() ==> (#[trigger] p.items[i]).id == q.items[i].id);
}

/// The layout is coherent but for activities that show what does not belong to them: were the pool
/// the wider `q`, nothing would be amiss.
pub open spec fn loose(s: LayoutModel, q: PoolModel) -> bool {
    &&& (LayoutModel { pool: q, ..s }).coherent()
    &&& widens(s.pool, q)
    &&& members_ok(s.pool, s.acts)
}

/// Opening a view keeps a layout as loose as it is.
pub proof fn lemma_open_loose(s: LayoutModel, q: PoolModel, mon: int, act: ActivityId) -> (r:
    PoolModel)
    requires
        loose(s, q),
        s.view_of(act, s.monitors[mon].output.id) is None,
        s.open_view(mon, act).fits(),
    ensures
        loose(s.open_view(mon, act), r),
{
    let m = s.monitors[mon];
    let out = m.output.id;
    let body = tagged(s.pool, act, out);
    let g = LayoutModel { pool: q, ..s };
    lemma_widens(s.pool, q);
    lemma_tagged(s.pool, act, out);
    let t = s.open_view(mon, act);
    if s.acts.get(act) is Some {
        let h = g.open_over(mon, act, body);
        let r = h.pool;
        assert(t == s.open_over(mon, act, body));
        assert(h == (LayoutModel { pool: r, ..t }));
        lemma_open_over(g, mon, act, body);
        assert(widens(t.pool, r)) by {
            assert forall|i: int| 0 <= i < t.pool.items.len() implies (#[trigger] r.items[i]) == (
            WorkspaceModel { activities: r.items[i].activities, ..t.pool.items[i] }) by {
                if i < s.pool.items.len() {
                    assert(r.items[i] == q.items[i]);
                    assert(t.pool.items[i] == s.pool.items[i]);
                }
            }
            assert forall|i: int, a: ActivityId|
                0 <= i < t.pool.items.len() && #[trigger] t.pool.items[i].activities.contains(
                    a,
                ) implies r.items[i].activities.contains(a) by {
                if i < s.pool.items.len() {
                    assert(r.items[i] == q.items[i]);
                    assert(t.pool.items[i] == s.pool.items[i]);
                    assert(s.pool.items[i].activities.contains(a));
                } else {
                    assert(r.items[i] == t.pool.items[i]);
                }
            }
        }
        crate::materialize::lemma_open_view_leads(s, mon, act);
        lemma_same_ids(s.acts, t.acts);
        assert forall|i: int| 0 <= i < t.pool.items.len() implies member_ok(
            t.acts,
            #[trigger] t.pool.items[i],
        ) by {
            if i < s.pool.items.len() {
                assert(t.pool.items[i] == s.pool.items[i]);
                assert(member_ok(s.acts, s.pool.items[i]));
            } else {
                assert(t.pool.items[i].activities == seq![act]);
                assert(t.pool.items[i].activities[0] == act);
            }
        }
        r
    } else {
        q
    }
}

/// Opening views for an activity keeps a layout as loose as it is.
pub proof fn lemma_row_loose(s: LayoutModel, q: PoolModel, act: ActivityId, n: int) -> (r: PoolModel)
    requires
        loose(s, q),
        s.ensure_row(act, n).fits(),
    ensures
        loose(s.ensure_row(act, n), r),
    decreases n,
{
    if n > 0 {
        let t = s.ensure_row(act, n - 1);
        crate::materialize::lemma_ensure_row_leads(s, act, n - 1, n - 1);
        crate::materialize::lemma_ensure_view_leads(t, n - 1, act);
        let r = lemma_row_loose(s, q, act, n - 1);
        if t.view_of(act, t.monitors[n - 1].output.id) is None {
            lemma_open_loose(t, r, n - 1, act)
        } else {
            r
        }
    } else {
        q
    }
}

/// Opening views keeps a layout as loose as it is.
pub proof fn lemma_rows_loose(s: LayoutModel, q: PoolModel, n: int) -> (r: PoolModel)
    requires
        loose(s, q),
        s.ensure_rows(n).fits(),
    ensures
        loose(s.ensure_rows(n), r),
    decreases n,
{
    if n > 0 {
        let t = s.ensure_rows(n - 1);
        let act = s.acts.list[n - 1].id;
        let k = s.monitors.len() as int;
        crate::materialize::lemma_ensure_rows_leads(s, n - 1, n - 1);
        crate::materialize::lemma_ensure_row_leads(t, act, 0, k);
        let r = lemma_rows_loose(s, q, n - 1);
        lemma_row_loose(t, r, act, k)
    } else {
        q
    }
}

/// What a step of showing adds belongs to the activity; the wider pool goes the same way.
pub proof fn lemma_show_loose(s: LayoutModel, q: PoolModel, work: Seq<Missing>)
    requires
        (LayoutModel { pool: q, ..s }).coherent(),
        widens(s.pool, q),
        forall|i: int|
            0 <= i < work.len() ==> s.pool.member((#[trigger] work[i]).id, work[i].act),
    ensures
        (LayoutModel { pool: q, ..s }).show_all(work) == (LayoutModel {
            pool: q,
            ..s.show_all(work)
        }),
        (LayoutModel { pool: q, ..s.show_all(work) }).coherent(),
        s.show_all(work).pool == s.pool,
        forall|a: ActivityId, o: OutputId, x: WorkspaceId| #[trigger]
            s.show_all(work).shows_on(a, o, x) ==> s.shows_on(a, o, x) || s.pool.member(x, a),
    decreases work.len(),
{
    let g = LayoutModel { pool: q, ..s };
    if work.len() > 0 {
        let rest = work.drop_last();
        assert forall|i: int| 0 <= i < rest.len() implies s.pool.member(
            (#[trigger] rest[i]).id,
            rest[i].act,
        ) by {
            assert(rest[i] == work[i]);
        }
        lemma_show_loose(s, q, rest);
        lemma_widens(s.pool, q);
        let t = s.show_all(rest);
        let h = LayoutModel { pool: q, ..t };
        let w = work.last();
        assert(s.pool.member(work[work.len() - 1].id, work[work.len() - 1].act));
        assert(h.holding_output(w.id) == t.holding_output(w.id));
        if let Some(out) = t.holding_output(w.id) {
            assert(q.member(w.id, w.act));
            lemma_install_into(h, w.act, out, w.id);
            let u = s.show_all(work);
            assert(u == t.install_into(w.act, out, w.id));
            if let Some(v) = t.view_of(w.act, out) {
                assert(h.view_of(w.act, out) == Some(v));
                let pos = crate::transfer::landing(t.pool, v, w.id);
                assert(pos == crate::transfer::landing(q, v, w.id));
                lemma_find_from(v.ids, equal_to(w.id), 0);
                if v.position_of(w.id) is None {
                    let z = v.insert(pos, w.id);
                    lemma_view_after_set(t.acts, w.act, out, z);
                    assert forall|a: ActivityId, o: OutputId, x: WorkspaceId| #[trigger]
                        u.shows_on(a, o, x) implies s.shows_on(a, o, x) || s.pool.member(x, a) by {
                        if a == w.act && o == out {
                            crate::disconnecting::lemma_insert_contains(v.ids, pos, w.id, x);
                            assert(x != w.id ==> t.shows_on(a, o, x));
                        } else {
                            lemma_view_after_set_other(t.acts, w.act, out, z, a, o);
                            assert(t.shows_on(a, o, x));
                        }
                    }
                }
            }
        }
    }
}

/// What is taken out of views is shown there no more, and nothing comes in its place; the wider
/// pool goes the same way.
pub proof fn lemma_unshow_loose(s: LayoutModel, q: PoolModel, work: Seq<Stray>)
    requires
        (LayoutModel { pool: q, ..s }).coherent(),
    ensures
        (LayoutModel { pool: q, ..s }).unshow_all(work) == (LayoutModel {
            pool: q,
            ..s.unshow_all(work)
        }),
        (LayoutModel { pool: q, ..s.unshow_all(work) }).coherent(),
        s.unshow_all(work).pool == s.pool,
        forall|a: ActivityId, o: OutputId, x: WorkspaceId| #[trigger]
            s.unshow_all(work).shows_on(a, o, x) ==> s.shows_on(a, o, x) && !work.contains(
                Stray { act: a, output: o, id: x },
            ),
    decreases work.len(),
{
    let g = LayoutModel { pool: q, ..s };
    if work.len() > 0 {
        let rest = work.drop_last();
        let w = work.last();
        lemma_unshow_loose(s, q, rest);
        let t = s.unshow_all(rest);
        let h = LayoutModel { pool: q, ..t };
        lemma_unshow(h, w);
        lemma_unshow_shrinks(h, w);
        let u = s.unshow_all(work);
        assert(u == t.unshow(w));
        assert(h.view_of(w.act, w.output) == t.view_of(w.act, w.output));
        assert(h.unshow(w) == (LayoutModel { pool: q, ..u }));
        assert forall|a: ActivityId, o: OutputId, x: WorkspaceId| #[trigger]
            u.shows_on(a, o, x) implies s.shows_on(a, o, x) && !work.contains(
            Stray { act: a, output: o, id: x },
        ) by {
            assert(h.unshow(w).shows_on(a, o, x));
            assert(h.shows_on(a, o, x));
            assert(t.shows_on(a, o, x));
            let y = Stray { act: a, output: o, id: x };
            if work.contains(y) {
                let k = choose|k: int| 0 <= k < work.len() && work[k] == y;
                if k < rest.len() {
                    assert(rest[k] == y);
                    assert(rest.contains(y));
                }
            }
        }
    }
}

/// What an activity shows among `ids` without having it strays.
pub proof fn lemma_strays_among(
    pool: PoolModel,
    act: ActivityId,
    out: OutputId,
    ids: Seq<WorkspaceId>,
    x: WorkspaceId,
)
    requires
        ids.contains(x),
        pool.has(x),
        !pool.member(x, act),
    ensures
        strays_among(pool, act, out, ids).contains(Stray { act, output: out, id: x }),
    decreases ids.len(),
{
    let all = strays_among(pool, act, out, ids);
    let rest = ids.drop_last();
    let k = choose|k: int| 0 <= k < ids.len() && ids[k] == x;
    if k < rest.len() {
        assert(rest[k] == x);
        assert(rest.contains(x));
        lemma_strays_among(pool, act, out, rest, x);
        let before = strays_among(pool, act, out, rest);
        let j = choose|j: int|
            0 <= j < before.len() && before[j] == (Stray { act, output: out, id: x });
        assert(all[j] == before[j]);
    } else {
        assert(all[all.len() - 1] == (Stray { act, output: out, id: x }));
    }
}

/// What an activity shows in its views without having it strays.
pub proof fn lemma_strays_in(
    pool: PoolModel,
    act: ActivityId,
    entries: Seq<EntryModel>,
    j: int,
    x: WorkspaceId,
)
    requires
        0 <= j < entries.len(),
        entries[j].view.ids.contains(x),
        pool.has(x),
        !pool.member(x, act),
    ensures
        strays_in(pool, act, entries).contains(
            Stray { act, output: entries[j].output, id: x },
        ),
    decreases entries.len(),
{
    let y = Stray { act, output: entries[j].output, id: x };
    let before = strays_in(pool, act, entries.drop_last());
    let last = entries.last();
    let here = strays_among(pool, act, last.output, last.view.ids);
    let all = strays_in(pool, act, entries);
    if j < entries.len() - 1 {
        lemma_strays_in(pool, act, entries.drop_last(), j, x);
        let k = choose|k: int| 0 <= k < before.len() && before[k] == y;
        assert(all[k] == y);
    } else {
        lemma_strays_among(pool, act, last.output, last.view.ids, x);
        let k = choose|k: int| 0 <= k < here.len() && here[k] == y;
        assert(all[before.len() + k] == y);
    }
}

/// What activities show without having it strays.
pub proof fn lemma_strays(pool: PoolModel, list: Seq<ActivityModel>, i: int, j: int, x: WorkspaceId)
    requires
        0 <= i < list.len(),
        0 <= j < list[i].views.len(),
        list[i].views[j].view.ids.contains(x),
        pool.has(x),
        !pool.member(x, list[i].id),
    ensures
        all_strays(pool, list).contains(
            Stray { act: list[i].id, output: list[i].views[j].output, id: x },
        ),
    decreases list.len(),
{
    let y = Stray { act: list[i].id, output: list[i].views[j].output, id: x };
    let before = all_strays(pool, list.drop_last());
    let here = strays_in(pool, list.last().id, list.last().views);
    let all = all_strays(pool, list);
    if i < list.len() - 1 {
        lemma_strays(pool, list.drop_last(), i, j, x);
        let k = choose|k: int| 0 <= k < before.len() && before[k] == y;
        assert(all[k] == y);
    } else {
        lemma_strays_in(pool, list[i].id, list[i].views, j, x);
        let k = choose|k: int| 0 <= k < here.len() && here[k] == y;
        assert(all[before.len() + k] == y);
    }
}

/// Once every activity shows what it has and nothing else, the layout is coherent.
pub proof fn lemma_weeded(s: LayoutModel, q: PoolModel)
    requires
        loose(s, q),
        s.monitors.len() > 0,
    ensures
        s.weeded().coherent(),
{
    let wanted = all_missing(s.pool, s.acts.list, s.parked);
    let unwanted = all_strays(s.pool, s.acts.list);
    let n = s.acts.list.len() as int;
    assert(s.acts.list.take(n) =~= s.acts.list);
    lemma_widens(s.pool, q);
    lemma_missing(s, n);
    let s1 = s.stilled();
    let g = LayoutModel { pool: q, ..s1 };
    assert(g.coherent()) by {
        assert((LayoutModel { pool: q, ..s }).coherent());
    }
    lemma_show_loose(s1, q, wanted);
    crate::reconcile::lemma_show_all_leads(s1, wanted);
    let s2 = s.supplied();
    lemma_unshow_loose(s2, q, unwanted);
    crate::reconcile::lemma_unshow_all_leads(s2, unwanted);
    let u = s.weeded();
    let h = LayoutModel { pool: q, ..u };
    lemma_same_ids(s.acts, u.acts);
    assert(u.pool == s.pool);
    assert forall|i: int| 0 <= i < u.acts.list.len() implies activity_ok(
        u.pool,
        #[trigger] u.acts.list[i],
    ) by {
        let a = u.acts.list[i];
        assert(activity_ok(q, h.acts.list[i]));
        assert forall|j: int| 0 <= j < a.views.len() implies view_ok(
            u.pool,
            a.id,
            (#[trigger] a.views[j]).view,
        ) by {
            assert(view_ok(q, a.id, a.views[j].view));
            let out = a.views[j].output;
            lemma_entry_is_view(h, i, j);
            assert forall|x: WorkspaceId| #[trigger] a.views[j].view.ids.contains(
                x,
            ) implies u.pool.member(x, a.id) by {
                assert(q.member(x, a.id));
                assert(q.has(x));
                assert(u.shows_on(a.id, out, x));
                assert(s2.shows_on(a.id, out, x));
                if !s.pool.member(x, a.id) {
                    assert(s1.shows_on(a.id, out, x));
                    lemma_shown_strays(s, a.id, out, x);
                }
            }
        }
    }
    assert forall|i: int| 0 <= i < u.pool.items.len() implies member_ok(
        u.acts,
        #[trigger] u.pool.items[i],
    ) by {
        assert(member_ok(s.acts, s.pool.items[i]));
    }
    assert forall|i: int| 0 <= i < u.parked.len() implies u.pool.has(#[trigger] u.parked[i]) by {
        assert(q.has(h.parked[i]));
    }
}

/// What an activity shows without having it strays.
pub proof fn lemma_shown_strays(s: LayoutModel, act: ActivityId, out: OutputId, x: WorkspaceId)
    requires
        s.shows_on(act, out, x),
        s.pool.has(x),
        !s.pool.member(x, act),
    ensures
        all_strays(s.pool, s.acts.list).contains(Stray { act, output: out, id: x }),
{
    lemma_act(s.acts, act);
    let i = s.acts.pos(act).unwrap();
    let a = s.acts.list[i];
    lemma_find_from(s.acts.list, crate::activity::named(act), 0);
    lemma_find_from(a.views, crate::activity::keyed(out), 0);
    let j = a.view_pos(out).unwrap();
    lemma_strays(s.pool, s.acts.list, i, j, x);
}

/// Reconciling a loose layout makes it coherent.
pub proof fn lemma_tightens(s: LayoutModel, q: PoolModel)
    requires
        loose(s, q),
        s.monitors.len() > 0,
        s.reconcile().fits(),
    ensures
        s.reconcile().coherent(),
{
    lemma_weeded(s, q);
    lemma_reconciled(s);
}

/// `b` has the activities of `a` with their views, and others without any.
pub open spec fn carries(a: ActivitiesModel, b: ActivitiesModel) -> bool {
    &&& b.active == a.active
    &&& forall|x: ActivityId| #[trigger] a.has(x) ==> b.has(x)
    &&& forall|i: int|
        0 <= i < b.list.len() ==> (#[trigger] b.list[i]).views.len() == 0 || a.get(b.list[i].id)
            is Some && a.get(b.list[i].id).unwrap().views == b.list[i].views
}

/// Declaring an activity keeps those there are.
pub proof fn lemma_declare_carries(a: ActivitiesModel, name: Seq<char>)
    requires
        acts_ok(a),
        a.declare(name).next <= u64::MAX + 1,
    ensures
        acts_ok(a.declare(name)),
        carries(a, a.declare(name)),
{
    let b = a.declare(name);
    let q = clashing(name, None);
    lemma_find_from(a.list, q, 0);
    if let Some(k) = crate::search::find(a.list, q) {
        assert forall|i: int| 0 <= i < a.list.len() implies (#[trigger] b.list[i]).id
            == a.list[i].id by {}
        assert(b.ids() =~= a.ids());
        lemma_same_ids(a, b);
        assert forall|i: int, j: int| 0 <= i < j < b.list.len() implies (#[trigger] b.list[i]).id
            != (#[trigger] b.list[j]).id by {
            assert(a.list[i].id != a.list[j].id);
        }
        assert forall|i: int| 0 <= i < b.list.len() implies (#[trigger] b.list[i]).id.0
            < b.next by {
            assert(a.list[i].id.0 < a.next);
        }
        assert forall|i: int| 0 <= i < b.list.len() implies (#[trigger] b.list[i]).views.len() == 0
            || a.get(b.list[i].id) is Some && a.get(b.list[i].id).unwrap().views
            == b.list[i].views by {
            lemma_act_pos(a, i);
        }
    } else {
        let n = a.list.len() as int;
        assert(b.list[n].id.0 == a.next);
        assert forall|i: int, j: int| 0 <= i < j < b.list.len() implies (#[trigger] b.list[i]).id
            != (#[trigger] b.list[j]).id by {
            assert(b.list[i] == a.list[i]);
            assert(a.list[i].id.0 < a.next);
            if j < n {
                assert(b.list[j] == a.list[j]);
                assert(a.list[i].id != a.list[j].id);
            }
        }
        assert forall|i: int| 0 <= i < b.list.len() implies (#[trigger] b.list[i]).id.0
            < b.next by {
            if i < n {
                assert(b.list[i] == a.list[i]);
                assert(a.list[i].id.0 < a.next);
            }
        }
        assert forall|x: ActivityId| #[trigger] a.has(x) implies b.has(x) by {
            lemma_act(a, x);
            let k = a.pos(x).unwrap();
            lemma_find_from(b.list, crate::activity::named(x), 0);
            assert(b.list[k] == a.list[k]);
            assert(crate::activity::named(x)(b.list[k]));
        }
        assert forall|i: int| 0 <= i < b.list.len() implies (#[trigger] b.list[i]).views.len() == 0
            || a.get(b.list[i].id) is Some && a.get(b.list[i].id).unwrap().views
            == b.list[i].views by {
            if i < n {
                assert(b.list[i] == a.list[i]);
                lemma_act_pos(a, i);
            }
        }
    }
}

/// What is carried on twice is carried on.
pub proof fn lemma_carries_trans(a: ActivitiesModel, b: ActivitiesModel, c: ActivitiesModel)
    requires
        carries(a, b),
        carries(b, c),
        acts_ok(b),
    ensures
        carries(a, c),
{
    assert forall|x: ActivityId| #[trigger] a.has(x) implies c.has(x) by {
        assert(b.has(x));
    }
    assert forall|i: int| 0 <= i < c.list.len() implies (#[trigger] c.list[i]).views.len() == 0
        || a.get(c.list[i].id) is Some && a.get(c.list[i].id).unwrap().views == c.list[i].views by {
        if c.list[i].views.len() > 0 {
            let id = c.list[i].id;
            lemma_act(b, id);
            let k = b.pos(id).unwrap();
            assert(b.list[k].views == c.list[i].views);
            assert(b.list[k].id == id);
        }
    }
}

/// Declaring activities keeps those there are.
pub proof fn lemma_declare_all_carries(a: ActivitiesModel, names: Seq<Seq<char>>)
    requires
        acts_ok(a),
        a.declare_all(names).next <= u64::MAX + 1,
    ensures
        acts_ok(a.declare_all(names)),
        carries(a, a.declare_all(names)),
    decreases names.len(),
{
    if names.len() == 0 {
        assert forall|i: int| 0 <= i < a.list.len() implies a.get((#[trigger] a.list[i]).id) is Some
            && a.get(a.list[i].id).unwrap().views == a.list[i].views by {
            lemma_act_pos(a, i);
        }
    } else {
        let b = a.declare_all(names.drop_last());
        lemma_declare_all_carries(a, names.drop_last());
        lemma_declare_carries(b, names.last());
        lemma_carries_trans(a, b, a.declare_all(names));
    }
}

/// Where the activity at `i` goes when the one at `p` is moved up to `at`.
pub open spec fn moved_to(i: int, p: int, at: int) -> int {
    if i == p {
        at
    } else if at <= i < p {
        i + 1
    } else {
        i
    }
}

/// Bringing activities to the front keeps them.
pub proof fn lemma_reorder_carries(a: ActivitiesModel, ids: Seq<ActivityId>)
    requires
        acts_ok(a),
    ensures
        acts_ok(a.reorder(ids)),
        carries(a, a.reorder(ids)),
        a.reorder(ids).list.len() == a.list.len(),
    decreases ids.len(),
{
    if ids.len() == 0 {
        assert forall|i: int| 0 <= i < a.list.len() implies a.get((#[trigger] a.list[i]).id) is Some
            && a.get(a.list[i].id).unwrap().views == a.list[i].views by {
            lemma_act_pos(a, i);
        }
    } else {
        let b = a.reorder(ids.drop_last());
        lemma_reorder_carries(a, ids.drop_last());
        let c = a.reorder(ids);
        let at = ids.len() - 1;
        lemma_act(b, ids.last());
        if let Some(p) = b.pos(ids.last()) {
            if p >= at {
                lemma_moved_carries(b, c, p, at);
                lemma_carries_trans(a, b, c);
            }
        }
    }
}

/// Moving one activity up keeps them all.
pub proof fn lemma_moved_carries(b: ActivitiesModel, c: ActivitiesModel, p: int, at: int)
    requires
        acts_ok(b),
        0 <= at <= p < b.list.len(),
        c == (ActivitiesModel { list: b.list.remove(p).insert(at, b.list[p]), ..b }),
    ensures
        acts_ok(c),
        carries(b, c),
        c.list.len() == b.list.len(),
{
    assert forall|i: int| 0 <= i < c.list.len() implies #[trigger] c.list[i] == b.list[if i == at {
        p
    } else if at < i <= p {
        i - 1
    } else {
        i
    }] by {}
    assert forall|i: int, j: int| 0 <= i < j < c.list.len() implies (#[trigger] c.list[i]).id != (
    #[trigger] c.list[j]).id by {
        let k = if i == at {
            p
        } else if at < i <= p {
            i - 1
        } else {
            i
        };
        let l = if j == at {
            p
        } else if at < j <= p {
            j - 1
        } else {
            j
        };
        if k < l {
            assert(b.list[k].id != b.list[l].id);
        } else {
            assert(b.list[l].id != b.list[k].id);
        }
    }
    assert forall|i: int| 0 <= i < c.list.len() implies (#[trigger] c.list[i]).id.0 < c.next by {
        let k = if i == at {
            p
        } else if at < i <= p {
            i - 1
        } else {
            i
        };
        assert(b.list[k].id.0 < b.next);
    }
    assert forall|x: ActivityId| #[trigger] b.has(x) implies c.has(x) by {
        lemma_act(b, x);
        let k = moved_to(b.pos(x).unwrap(), p, at);
        lemma_find_from(c.list, crate::activity::named(x), 0);
        assert(c.list[k] == b.list[b.pos(x).unwrap()]);
        assert(crate::activity::named(x)(c.list[k]));
    }
    assert forall|i: int| 0 <= i < c.list.len() implies (#[trigger] c.list[i]).views.len() == 0
        || b.get(c.list[i].id) is Some && b.get(c.list[i].id).unwrap().views == c.list[i].views by {
        let k = if i == at {
            p
        } else if at < i <= p {
            i - 1
        } else {
            i
        };
        lemma_act_pos(b, k);
    }
}

/// The workspaces of `p`, each in all of `acts`.
pub open spec fn everywhere(p: PoolModel, acts: ActivitiesModel) -> PoolModel {
    PoolModel {
        items: Seq::new(
            p.items.len(),
            |i: int| WorkspaceModel { activities: acts.ids(), ..p.items[i] },
        ),
        ..p
    }
}

/// Giving the declared workspaces their activities leaves every workspace in some activity.
pub proof fn lemma_reassign_all_members(
    p: PoolModel,
    a: ActivitiesModel,
    b: ActivitiesModel,
    decls: Seq<WorkspaceDeclModel>,
)
    requires
        members_ok(p, a),
        carries(a, b),
        acts_ok(b),
    ensures
        members_ok(p.reassign_all(b, decls), b),
{
    let q = p.reassign_all(b, decls);
    lemma_act(b, b.active);
    assert forall|i: int| 0 <= i < q.items.len() implies member_ok(b, #[trigger] q.items[i]) by {
        let w = p.items[i];
        assert(member_ok(a, w));
        if w.sticky {
            lemma_ids_exist(b);
        } else if let Some(name) = w.name {
            if let Some(k) = crate::search::find(decls, declares(name)) {
                lemma_declared_for(b, decls[k]);
            }
        }
    }
}

/// There is an activity, and each has the id that it is listed by.
pub proof fn lemma_ids_exist(acts: ActivitiesModel)
    requires
        acts_ok(acts),
    ensures
        acts.ids().len() > 0,
        forall|x: ActivityId| #[trigger] acts.ids().contains(x) ==> acts.has(x),
        forall|x: ActivityId| #[trigger] acts.has(x) ==> acts.ids().contains(x),
{
    lemma_act(acts, acts.active);
    assert forall|x: ActivityId| #[trigger] acts.ids().contains(x) implies acts.has(x) by {
        let k = choose|k: int| 0 <= k < acts.ids().len() && acts.ids()[k] == x;
        lemma_act_pos(acts, k);
    }
    assert forall|x: ActivityId| #[trigger] acts.has(x) implies acts.ids().contains(x) by {
        lemma_act(acts, x);
        assert(acts.ids()[acts.pos(x).unwrap()] == x);
    }
}

/// Giving the declared workspaces their activities makes a coherent layout loose at most.
pub proof fn lemma_reassign_all_loose(
    s: LayoutModel,
    acts: ActivitiesModel,
    decls: Seq<WorkspaceDeclModel>,
)
    requires
        s.coherent(),
        acts_ok(acts),
        carries(s.acts, acts),
    ensures
        ({
            let t = LayoutModel { acts, pool: s.pool.reassign_all(acts, decls), ..s };
            loose(t, everywhere(t.pool, acts))
        }),
{
    let t = LayoutModel { acts, pool: s.pool.reassign_all(acts, decls), ..s };
    let q = everywhere(t.pool, acts);
    let g = LayoutModel { pool: q, ..t };
    lemma_reassign_all_members(s.pool, s.acts, acts, decls);
    lemma_ids_exist(acts);
    assert forall|i: int| 0 <= i < s.pool.items.len() implies (#[trigger] q.items[i]).id
        == s.pool.items[i].id by {}
    assert(q.wf()) by {
        assert forall|i: int, j: int| 0 <= i < j < q.items.len() implies (
        #[trigger] q.items[i]).id.0 < (#[trigger] q.items[j]).id.0 by {
            assert(s.pool.items[i].id.0 < s.pool.items[j].id.0);
        }
        assert forall|i: int| 0 <= i < q.items.len() implies (#[trigger] q.items[i]).id.0
            < q.next by {
            assert(s.pool.items[i].id.0 < s.pool.next);
        }
    }
    assert forall|x: WorkspaceId| #[trigger] q.pos(x) == s.pool.pos(x) by {
        let f = crate::pool::has_id(x);
        assert forall|i: int| 0 <= i < s.pool.items.len() implies f(#[trigger] s.pool.items[i])
            == f(q.items[i]) by {}
        lemma_find_map(s.pool.items, q.items, f, f);
    }
    assert(widens(t.pool, q)) by {
        assert forall|i: int, a: ActivityId|
            0 <= i < t.pool.items.len() && #[trigger] t.pool.items[i].activities.contains(
                a,
            ) implies q.items[i].activities.contains(a) by {
            assert(member_ok(acts, t.pool.items[i]));
            assert(acts.has(a));
        }
    }
    assert(g.coherent()) by {
        assert forall|i: int| 0 <= i < q.items.len() implies member_ok(
            acts,
            #[trigger] q.items[i],
        ) by {}
        assert forall|i: int| 0 <= i < acts.list.len() implies activity_ok(
            q,
            #[trigger] acts.list[i],
        ) by {
            let a = acts.list[i];
            if a.views.len() > 0 {
                lemma_act(s.acts, a.id);
                let k = s.acts.pos(a.id).unwrap();
                let b = s.acts.list[k];
                assert(activity_ok(s.pool, b));
                assert forall|j: int| 0 <= j < a.views.len() implies view_ok(
                    q,
                    a.id,
                    (#[trigger] a.views[j]).view,
                ) by {
                    assert(view_ok(s.pool, b.id, b.views[j].view));
                    assert forall|x: WorkspaceId| #[trigger] a.views[j].view.ids.contains(
                        x,
                    ) implies q.member(x, a.id) by {
                        assert(s.pool.member(x, b.id));
                        assert(q.pos(x) == s.pool.pos(x));
                        lemma_get(s.pool, x);
                        lemma_act_pos(acts, i);
                        assert(acts.has(a.id));
                    }
                }
            }
        }
        assert forall|i: int| 0 <= i < g.parked.len() implies q.has(#[trigger] g.parked[i]) by {
            assert(s.pool.has(s.parked[i]));
            assert(q.pos(s.parked[i]) == s.pool.pos(s.parked[i]));
        }
    }
}

/// Taking up what the configuration declares keeps the layout coherent: declared and sticky
/// workspaces change their activities all at once, and afterwards every activity again shows only
/// what belongs to it.
pub proof fn law_declaring_keeps_coherence(
    s: LayoutModel,
    names: Seq<Seq<char>>,
    decls: Seq<WorkspaceDeclModel>,
)
    requires
        s.coherent(),
        s.monitors.len() > 0 || forall|i: int|
            0 <= i < s.acts.list.len() ==> (#[trigger] s.acts.list[i]).views.len() == 0,
        s.declare_activities(names, decls).fits(),
    ensures
        s.declare_activities(names, decls).coherent(),
        forall|a: ActivityId| #[trigger]
            s.acts.has(a) ==> s.declare_activities(names, decls).acts.has(a),
{
    let given = s.acts.declare_all(names);
    let acts = given.reorder(s.acts.ids_declared(names));
    let d = LayoutModel { acts, pool: s.pool.reassign_all(acts, decls), ..s };
    let e = d.ensure_all();
    let t = s.declare_activities(names, decls);
    let n = acts.list.len() as int;
    assert(t == e.reconcile());
    crate::reload::lemma_reorder_counts(given, s.acts.ids_declared(names));
    crate::materialize::lemma_ensure_all_leads(d);
    crate::reconcile::lemma_reconcile_leads(e);
    lemma_declare_all_carries(s.acts, names);
    lemma_reorder_carries(given, s.acts.ids_declared(names));
    lemma_carries_trans(s.acts, given, acts);
    lemma_reassign_all_loose(s, acts, decls);
    let r = lemma_rows_loose(d, everywhere(d.pool, acts), n);
    lemma_same_ids(acts, t.acts);
    if s.monitors.len() > 0 {
        lemma_tightens(e, r);
    } else {
        lemma_rows_alone(d, n);
        let q = everywhere(d.pool, acts);
        lemma_widens(d.pool, q);
        assert forall|i: int| 0 <= i < acts.list.len() implies activity_ok(
            d.pool,
            #[trigger] acts.list[i],
        ) by {
            if acts.list[i].views.len() > 0 {
                lemma_act(s.acts, acts.list[i].id);
                let k = s.acts.pos(acts.list[i].id).unwrap();
                assert(s.acts.list[k].views.len() == 0);
            }
        }
        assert forall|i: int| 0 <= i < d.parked.len() implies d.pool.has(
            #[trigger] d.parked[i],
        ) by {
            assert(q.has((LayoutModel { pool: q, ..d }).parked[i]));
        }
    }
}

/// Without monitors there are no views to open.
pub proof fn lemma_rows_alone(s: LayoutModel, n: int)
    requires
        s.monitors.len() == 0,
    ensures
        s.ensure_rows(n) == s,
    decreases n,
{
    if n > 0 {
        lemma_rows_alone(s, n - 1);
    }
}

} // verus!
