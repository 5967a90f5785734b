//! A declared workspace opens where its declaration says.

use vstd::prelude::*;

use crate::activity::{ActivitiesModel, ActivityModel};
use crate::coherence::{
    acts_ok, lemma_act, lemma_act_pos, lemma_get, lemma_get_put, lemma_push_coherent,
    lemma_view_is_ok, view_ok,
};
use crate::config::{activity_ids, among, mentioned, WorkspaceDeclModel};
use crate::ids::{ActivityId, OutputId, WorkspaceId};
use crate::aiming::lemma_settled_view;
use crate::keeping_views::{lemma_filter, lemma_swept};
use crate::layout::LayoutModel;
use crate::outputs::worth_keeping;
use crate::persisting::lemma_mended_work;
use crate::reclaim::{doubled, kept, pruned, swept};
use crate::reloading::lemma_declared_for;
use crate::switching::elsewhere;
use crate::text::same_name;
use crate::transfer::{lemma_view_after_set, lemma_view_after_set_other};

verus! {

/// Sweeping a strip that holds a workspace with windows or a name takes out what it prunes, and
/// nothing else.
pub proof fn lemma_clean_up_exact(s: LayoutModel, mon: int, id: WorkspaceId)
    requires
        s.coherent(),
        0 <= mon < s.monitors.len(),
        s.pool.busy(id),
        s.shows_on(s.acts.active, s.monitors[mon].output.id, id),
    ensures
        s.clean_up(mon).view_of(s.acts.active, s.monitors[mon].output.id) == Some(
            swept(
                s.pool,
                s.active_view(s.monitors[mon].output.id).unwrap(),
                s.monitors[mon].empty_workspace_above_first,
            ),
        ),
{
    let m = s.monitors[mon];
    let leading = m.empty_workspace_above_first;
    let act = s.acts.active;
    let out = m.output.id;
    let v = s.active_view(out).unwrap();
    lemma_view_is_ok(s, act, out);
    let w = swept(s.pool, v, leading);
    lemma_swept(s.pool, v, leading);
    let gone = v.ids.filter(pruned(s.pool, v, leading));
    lemma_filter(v.ids, pruned(s.pool, v, leading));
    lemma_filter(v.ids, kept(s.pool, v, leading));
    assert(w.ids.contains(id));
    assert(!doubled(s.pool, w, leading)) by {
        let k = choose|k: int| 0 <= k < w.ids.len() && w.ids[k] == id;
        if w.ids.len() == 2 {
            assert(k == 0 || k == 1);
        }
    }
    let t = s.with_view(act, out, w);
    crate::coherence::lemma_with_view_coherent(s, act, out, w);
    lemma_view_after_set(s.acts, act, out, w);
    assert forall|i: int| 0 <= i < gone.len() implies t.pool.shared(#[trigger] gone[i])
        || !t.parked.contains(gone[i]) by {
        assert(gone.contains(gone[i]));
        assert(s.pool.exclusive(gone[i]));
        assert(v.ids.contains(gone[i]));
    }
    assert forall|x: WorkspaceId| #[trigger] w.ids.contains(x) implies !gone.contains(x) by {}
    crate::connecting::lemma_destroy_all_view(t, gone, act, out);
}

/// What a filter picks of a sequence into which `id` was put at `at`, behind a first element that
/// the filter does not pick.
pub proof fn lemma_put_among(
    ids: Seq<WorkspaceId>,
    at: int,
    id: WorkspaceId,
    lead: bool,
    top: WorkspaceId,
    q: spec_fn(WorkspaceId) -> bool,
)
    requires
        0 <= at <= ids.len(),
        lead ==> at == 0 && !q(top),
        q(id),
    ensures
        (if lead {
            ids.insert(0, top).insert(1, id)
        } else {
            ids.insert(at, id)
        }).filter(q) == ids.take(at).filter(q) + seq![id] + ids.skip(at).filter(q),
{
    let one = seq![id];
    Seq::filter_distributes_over_add(ids.take(at) + one, ids.skip(at), q);
    Seq::filter_distributes_over_add(ids.take(at), one, q);
    crate::cores::lemma_filter_all(one, q);
    assert(ids.insert(at, id) =~= ids.take(at) + one + ids.skip(at));
    if lead {
        assert(ids.insert(0, top).insert(1, id) =~= ids.insert(0, id).insert(0, top));
        crate::cores::lemma_filter_insert(ids.insert(0, id), 0, top, q);
    }
}

/// A workspace that is put into the active view of a monitor is there, at the place asked for among
/// the ones with windows or names, and it is active if that was asked for. No other view changes.
#[verifier::rlimit(30)]
pub proof fn lemma_attach_views(s: LayoutModel, mon: int, id: WorkspaceId, idx: int, activate: bool)
    requires
        s.coherent(),
        s.shown_once(),
        0 <= mon < s.monitors.len(),
        0 <= idx,
        s.pool.busy(id),
        s.pool.member(id, s.acts.active),
        forall|o: OutputId| !(#[trigger] s.shows_on(s.acts.active, o, id)),
        s.active_view(s.monitors[mon].output.id) is Some,
        s.attach(mon, id, idx, activate).fits(),
    ensures
        ({
            let t = s.attach(mon, id, idx, activate);
            let act = s.acts.active;
            let out = s.monitors[mon].output.id;
            let v = s.active_view(out).unwrap();
            let q = worth_keeping(s.pool);
            let at = if idx < v.ids.len() {
                idx
            } else {
                v.ids.len() - 1
            };
            &&& t.coherent()
            &&& t.shown_once()
            &&& t.pool.get(id) == Some(s.pool.get(id).unwrap().bind(s.monitors[mon].output))
            &&& forall|x: WorkspaceId| #[trigger] t.pool.busy(x) == s.pool.busy(x)
            &&& forall|x: WorkspaceId|
                x != id && #[trigger] s.pool.busy(x) ==> t.pool.get(x) == s.pool.get(x)
            &&& forall|a: ActivityId, o: OutputId|
                a != act || o != out ==> #[trigger] t.view_of(a, o) == s.view_of(a, o)
            &&& match t.view_of(act, out) {
                Some(w) => {
                    &&& w.ids.contains(id)
                    &&& w.active == if activate {
                        id
                    } else {
                        v.active
                    }
                    &&& w.ids.filter(q) == v.ids.take(at).filter(q) + seq![id] + v.ids.skip(
                        at,
                    ).filter(q)
                },
                None => false,
            }
        }),
{
    let m = s.monitors[mon];
    let out = m.output.id;
    let act = s.acts.active;
    let q = worth_keeping(s.pool);
    let w = s.pool.get(id).unwrap();
    let b = w.bind(m.output);
    let s1 = LayoutModel { pool: s.pool.bind(id, m.output), ..s };
    let t = s.attach(mon, id, idx, activate);
    crate::tending::lemma_attach(s, mon, id, idx, activate);
    assert(!s.shows_on(act, out, id));
    crate::carrying::lemma_put_keeps(s, id, b);
    lemma_get(s.pool, id);
    lemma_get_put(s.pool, id, b);
    crate::arrange::lemma_attach_leads(s, mon, id, idx, activate);
    let v = s1.active_view(out).unwrap();
    lemma_view_is_ok(s1, act, out);
    let at = if idx >= v.ids.len() {
        v.ids.len() - 1
    } else {
        idx
    };
    let lead = at == 0 && m.empty_workspace_above_first;
    let s2 = if lead {
        s1.add_workspace_top(mon)
    } else {
        s1
    };
    let at2 = if lead {
        1
    } else {
        at
    };
    let top = s1.pool.next_id();
    let v2 = if lead {
        v.insert(0, top)
    } else {
        v
    };
    crate::bookends::lemma_mint_into_leads(s1, mon, act, 0);
    lemma_view_after_set(s1.acts, act, out, v2);
    assert(s2.active_view(out) == Some(v2));
    let v3 = v2.insert(at2, id);
    let v4 = if activate {
        v3.activate(at2)
    } else {
        v3
    };
    let s3 = s2.with_view(act, out, v4).settle(mon);
    crate::reclaim::lemma_clean_up_leads(s3, mon);
    assert(t == s3.clean_up(mon));
    assert(s2.before(s3));
    crate::belonging::lemma_same_once(s, s1);
    assert(forall|o: OutputId| #[trigger] s1.shows_on(act, o, id) == s.shows_on(act, o, id));
    if lead {
        crate::tending::lemma_added(s1, mon, 0);
        crate::cores::lemma_mint_into_calm(s1, mon, act, 0, m.output);
        crate::belonging::lemma_mint_into_once(s1, mon, act, 0);
        crate::disconnecting::lemma_insert_contains(v.ids, 0, top, id);
        lemma_get(s1.pool, id);
        lemma_get(s1.pool, top);
        lemma_get(s.pool, top);
        assert(id != top);
    }
    lemma_view_is_ok(s2, act, out);
    assert(s1.pool.has(id));
    assert(s2.pool.get(id) == Some(b));
    assert(!v2.ids.contains(id));
    crate::view::lemma_insert_wf(v2, at2, id);
    assert(view_ok(s2.pool, act, v4));
    crate::coherence::lemma_with_view_coherent(s2, act, out, v4);
    lemma_view_after_set(s2.acts, act, out, v4);
    assert(s3.view_of(act, out) == Some(v4));
    assert forall|a: ActivityId, o: OutputId| a != act || o != out implies #[trigger] s3.view_of(
        a,
        o,
    ) == s.view_of(a, o) by {
        lemma_view_after_set_other(s1.acts, act, out, v2, a, o);
        lemma_view_after_set_other(s2.acts, act, out, v4, a, o);
    }
    assert forall|a: ActivityId, o: OutputId| a != act || o != out implies #[trigger] s3.view_of(
        a,
        o,
    ) == s2.view_of(a, o) by {
        lemma_view_after_set_other(s2.acts, act, out, v4, a, o);
    }
    assert forall|o: OutputId| !(#[trigger] s2.shows_on(act, o, id)) by {
        if o != out {
            lemma_view_after_set_other(s1.acts, act, out, v2, act, o);
            assert(!s.shows_on(act, o, id));
        }
    }
    crate::belonging::lemma_grown_once(s2, s3, act, out, id);
    assert(s3.shows_on(act, out, id));
    crate::connecting::lemma_clean_up_views(s3, mon);
    crate::tending::lemma_clean_up_shrinks(s3, mon, id);
    crate::belonging::lemma_shrunk_once(s3, t);
    assert(s3.pool.busy(id));
    lemma_clean_up_exact(s3, mon, id);
    let k = kept(s3.pool, v4, m.empty_workspace_above_first);
    lemma_filter(v4.ids, k);
    assert forall|i: int| 0 <= i < v4.ids.len() && #[trigger] q(v4.ids[i]) implies k(v4.ids[i]) by {
        let x = v4.ids[i];
        assert(s.pool.busy(x));
        lemma_get(s.pool, x);
        assert(s1.pool.busy(x));
        assert(s1.pool.has(x));
        assert(s2.pool.busy(x));
    }
    crate::cores::lemma_filter_filter(v4.ids, k, q);
    assert(s.pool.get(top) is None || !lead);
    lemma_put_among(v.ids, at, id, lead, top, q);
    assert forall|x: WorkspaceId| x != id && #[trigger] s.pool.busy(x) implies s3.pool.get(x)
        == s.pool.get(x) by {
        assert(s1.pool.get(x) == s.pool.get(x));
        assert(s1.pool.has(x));
    }
    crate::keeping_views::lemma_clean_up(s3, mon);
    assert(t.pool.get(id) == Some(b));
    assert forall|x: WorkspaceId| x != id && #[trigger] s.pool.busy(x) implies t.pool.get(x)
        == s.pool.get(x) by {
        assert(s3.pool.busy(x));
    }
    assert forall|x: WorkspaceId| #[trigger] t.pool.busy(x) == s.pool.busy(x) by {
        if s.pool.busy(x) {
            assert(s3.pool.busy(x));
        }
        if t.pool.busy(x) {
            assert(t.pool.has(x));
            assert(s3.pool.busy(x));
            assert(s2.pool.busy(x));
            assert(s1.pool.busy(x));
        }
    }
}

/// Showing a workspace to some activities shows it to them on the output asked for, behind what has
/// windows or names there, and changes no other view.
pub proof fn lemma_enlist_all_views(
    s: LayoutModel,
    acts: Seq<ActivityId>,
    out: OutputId,
    id: WorkspaceId,
)
    requires
        s.coherent(),
        s.shown_once(),
        s.pool.busy(id),
        forall|i: int|
            0 <= i < acts.len() ==> s.pool.member(id, #[trigger] acts[i]) && s.view_of(
                acts[i],
                out,
            ) is Some,
        forall|a: ActivityId, o: OutputId|
            acts.contains(a) ==> !(#[trigger] s.shows_on(a, o, id)),
    ensures
        ({
            let t = s.enlist_all(acts, out, id);
            let q = worth_keeping(s.pool);
            &&& t.coherent()
            &&& t.shown_once()
            &&& t.pool == s.pool
            &&& t.monitors == s.monitors
            &&& t.acts.ids() == s.acts.ids()
            &&& forall|a: ActivityId, o: OutputId|
                !acts.contains(a) || o != out ==> #[trigger] t.view_of(a, o) == s.view_of(a, o)
            &&& forall|a: ActivityId|
                acts.contains(a) ==> match #[trigger] t.view_of(a, out) {
                    Some(w) => {
                        &&& w.ids.contains(id)
                        &&& w.active == s.view_of(a, out).unwrap().active
                        &&& w.ids.filter(q) == s.view_of(a, out).unwrap().ids.filter(q).push(id)
                    },
                    None => false,
                }
        }),
    decreases acts.len(),
{
    let q = worth_keeping(s.pool);
    let t = s.enlist_all(acts, out, id);
    if acts.len() > 0 {
        let rest = acts.drop_last();
        let x = acts.last();
        assert(acts[acts.len() - 1] == x);
        assert forall|i: int| 0 <= i < rest.len() implies s.pool.member(id, #[trigger] rest[i])
            && s.view_of(rest[i], out) is Some by {
            assert(rest[i] == acts[i]);
        }
        assert forall|a: ActivityId| #[trigger] acts.contains(a) == (rest.contains(a) || a == x) by {
            if acts.contains(a) {
                let k = choose|k: int| 0 <= k < acts.len() && acts[k] == a;
                if k < rest.len() {
                    assert(rest[k] == a);
                }
            }
            if rest.contains(a) {
                let k = choose|k: int| 0 <= k < rest.len() && rest[k] == a;
                assert(acts[k] == a);
            }
        }
        lemma_enlist_all_views(s, rest, out, id);
        let r = s.enlist_all(rest, out, id);
        crate::belonging::lemma_enlist(r, x, out, id, false);
        crate::belonging::lemma_enlist_once(r, x, out, id, false);
        crate::membership::lemma_enlist_leads(r, x, out, id, false);
        crate::belonging::lemma_stray(r, x, id);
        lemma_act(r.acts, x);
        let v = r.view_of(x, out).unwrap();
        if rest.contains(x) {
            assert(r.shows_on(x, out, id));
            assert(t == r);
        } else {
            assert forall|o: OutputId| !(#[trigger] r.shows_on(x, o, id)) by {
                assert(!s.shows_on(x, o, id));
                assert(r.view_of(x, o) == s.view_of(x, o));
            }
            assert(r.stray(x, id) is None);
            assert(r.view_of(x, out) == s.view_of(x, out));
            crate::search::lemma_find_from(v.ids, crate::search::equal_to(id), 0);
            assert(!r.shows_on(x, out, id));
            let at = crate::transfer::landing(r.pool, v, id);
            let w = v.insert(at, id);
            assert(t == r.with_view(x, out, w));
            lemma_view_after_set(r.acts, x, out, w);
            assert(w.ids[at] == id);
            assert forall|a: ActivityId, o: OutputId| a != x || o != out implies #[trigger] t.view_of(
                a,
                o,
            ) == r.view_of(a, o) by {
                lemma_view_after_set_other(r.acts, x, out, w, a, o);
            }
            lemma_put_among(v.ids, at, id, false, id, q);
            assert(v.ids.take(at) + v.ids.skip(at) =~= v.ids);
            Seq::filter_distributes_over_add(v.ids.take(at), v.ids.skip(at), q);
            crate::cores::lemma_filter_none(v.ids.skip(at), q);
            assert(w.ids.filter(q) =~= v.ids.filter(q).push(id));
        }
    }
}

/// Which activities are picked.
pub proof fn lemma_picked_ids(acts: ActivitiesModel, n: int, p: spec_fn(ActivityModel) -> bool)
    requires
        0 <= n <= acts.list.len(),
    ensures
        forall|x: ActivityId| #[trigger]
            activity_ids(acts.list.take(n).filter(p)).contains(x) <==> exists|k: int|
                0 <= k < n && (#[trigger] acts.list[k]).id == x && p(acts.list[k]),
    decreases n,
{
    reveal(Seq::filter);
    let all = acts.list.take(n);
    if n > 0 {
        lemma_picked_ids(acts, n - 1, p);
        assert(all.drop_last() =~= acts.list.take(n - 1));
        assert(all.last() == acts.list[n - 1]);
        let before = activity_ids(all.drop_last().filter(p));
        let ids = activity_ids(all.filter(p));
        assert(ids =~= if p(all.last()) {
            before.push(all.last().id)
        } else {
            before
        });
        assert forall|x: ActivityId| #[trigger] ids.contains(x) <==> exists|k: int|
            0 <= k < n && (#[trigger] acts.list[k]).id == x && p(acts.list[k]) by {
            if ids.contains(x) {
                let k = choose|k: int| 0 <= k < ids.len() && ids[k] == x;
                if k < before.len() {
                    assert(before[k] == x);
                    assert(before.contains(x));
                }
            }
            if exists|k: int| 0 <= k < n && (#[trigger] acts.list[k]).id == x && p(acts.list[k]) {
                let k = choose|k: int|
                    0 <= k < n && (#[trigger] acts.list[k]).id == x && p(acts.list[k]);
                if k < n - 1 {
                    assert(before.contains(x));
                    let j = choose|j: int| 0 <= j < before.len() && before[j] == x;
                    assert(ids[j] == x);
                } else {
                    assert(ids[ids.len() - 1] == x);
                }
            }
        }
    }
}

/// The activities of a declared workspace: all of them if it is sticky, otherwise those that it
/// mentions, and the active one if it mentions none that there is.
pub proof fn lemma_declared_members(acts: ActivitiesModel, d: WorkspaceDeclModel, i: int)
    requires
        acts_ok(acts),
        0 <= i < acts.list.len(),
    ensures
        acts.declared_for(d).contains(acts.list[i].id) <==> {
            ||| d.sticky
            ||| among(d.activities, acts.list[i].name)
            ||| acts.list[i].id == acts.active && forall|j: int|
                0 <= j < acts.list.len() ==> !among(d.activities, (#[trigger] acts.list[j]).name)
        },
{
    let n = acts.list.len() as int;
    let p = mentioned(d.activities);
    let x = acts.list[i].id;
    assert(acts.list.take(n) =~= acts.list);
    lemma_picked_ids(acts, n, p);
    let found = activity_ids(acts.list.filter(p));
    lemma_act_pos(acts, i);
    assert(acts.ids()[i] == x);
    if found.len() == 0 {
        assert forall|j: int| 0 <= j < n implies !among(
            d.activities,
            (#[trigger] acts.list[j]).name,
        ) by {
            if p(acts.list[j]) {
                assert(found.contains(acts.list[j].id));
            }
        }
        assert(seq![acts.active].contains(x) == (x == acts.active)) by {
            assert(seq![acts.active][0] == acts.active);
        }
    } else {
        assert(found.contains(found[0]));
        if found.contains(x) {
            let k = choose|k: int| 0 <= k < n && (#[trigger] acts.list[k]).id == x && p(
                acts.list[k],
            );
            lemma_act_pos(acts, k);
        }
        if p(acts.list[i]) {
            assert(found.contains(x));
        }
    }
}

/// A layout as it stands when a declared workspace was opened on monitor `mon`, before missing
/// bookends are put in.
pub proof fn lemma_opened(s: LayoutModel, d: WorkspaceDeclModel, mon: int) -> (r: LayoutModel)
    requires
        s.whole(),
        s.monitors.len() > 0,
        s.named_workspace(d.name) is None,
        mon == s.opening_monitor(d),
        0 <= mon < s.monitors.len(),
        s.ensure_named(d).fits(),
    ensures
        ({
            let id = s.pool.next_id();
            let out = s.monitors[mon].output.id;
            let act = s.acts.active;
            let q = |x: WorkspaceId| x == id || s.pool.busy(x);
            &&& s.ensure_named(d) == r.normalize()
            &&& r.coherent()
            &&& r.shown_once()
            &&& s.leads_to(r)
            &&& !s.pool.has(id)
            &&& r.pool.has(id)
            &&& r.pool.get(id).unwrap().name == Some(d.name)
            &&& r.pool.get(id).unwrap().activities == s.acts.declared_for(d)
            &&& r.pool.get(id).unwrap().sticky == d.sticky
            &&& r.pool.get(id).unwrap().tiles.len() == 0
            &&& forall|x: WorkspaceId| #[trigger] r.pool.busy(x) == (x == id || s.pool.busy(x))
            &&& forall|x: WorkspaceId|
                x != id && #[trigger] s.pool.busy(x) ==> r.pool.get(x) == s.pool.get(x)
            &&& forall|a: ActivityId, o: OutputId|
                !r.pool.member(id, a) || o != out ==> #[trigger] r.view_of(a, o) == s.view_of(a, o)
            &&& forall|a: ActivityId|
                r.pool.member(id, a) ==> s.view_of(a, out) is Some && match #[trigger] r.view_of(
                    a,
                    out,
                ) {
                    Some(w) => {
                        let v = s.view_of(a, out).unwrap();
                        &&& w.ids.contains(id)
                        &&& w.active == v.active
                        &&& w.ids.filter(q) == if a == act {
                            seq![id] + v.ids.filter(q)
                        } else {
                            v.ids.filter(q).push(id)
                        }
                    },
                    None => false,
                }
        }),
{
    let members = s.acts.declared_for(d);
    let id = s.pool.next_id();
    let act = s.acts.active;
    let output = s.monitors[mon].output;
    let out = output.id;
    let q = |x: WorkspaceId| x == id || s.pool.busy(x);
    lemma_declared_for(s.acts, d);
    let p1 = s.pool.mint_declared(d, members, Some(out));
    let w = p1.items[s.pool.items.len() as int];
    let s1 = LayoutModel { pool: p1, ..s };
    let shown = members.contains(act);
    let s2 = if shown {
        s1.attach(mon, id, 0, false)
    } else {
        LayoutModel { pool: s1.pool.bind(id, output), ..s1 }
    };
    let others = s2.acts.ids().filter(elsewhere(act, members));
    let s3 = s2.enlist_all(others, out, id);
    assert(s.ensure_named(d) == s3.normalize());
    crate::arrange::lemma_attach_leads(s1, mon, id, 0, false);
    crate::membership::lemma_enlist_all_leads(s2, others, out, id);
    crate::bookends::lemma_normalize_leads(s3);
    lemma_push_coherent(s, w);
    crate::coherence::lemma_push(s.pool, w);
    lemma_get(p1, id);
    crate::belonging::lemma_same_once(s, s1);
    assert forall|x: WorkspaceId| #[trigger] s1.pool.busy(x) == q(x) by {}
    assert forall|a: ActivityId, o: OutputId| !(#[trigger] s.shows_on(a, o, id)) by {
        if s.shows_on(a, o, id) {
            lemma_view_is_ok(s, a, o);
            assert(s.pool.member(id, a));
        }
    }
    assert forall|a: ActivityId| #[trigger] members.contains(a) implies s.view_of(a, out) is Some by {
        lemma_act(s.acts, a);
        let i = s.acts.pos(a).unwrap();
        assert(s.view_of(s.acts.list[i].id, s.monitors[mon].output.id) is Some);
    }
    let b = w.bind(output);
    if shown {
        assert forall|o: OutputId| !(#[trigger] s1.shows_on(act, o, id)) by {
            assert(!s.shows_on(act, o, id));
        }
        lemma_attach_views(s1, mon, id, 0, false);
        assert(worth_keeping(s1.pool) =~= q);
        let v = s.view_of(act, out).unwrap();
        assert(v.ids.skip(0) =~= v.ids);
        assert(v.ids.take(0) =~= Seq::<WorkspaceId>::empty());
        crate::cores::lemma_filter_none(v.ids.take(0), q);
        assert(s2.view_of(act, out).unwrap().ids.filter(q) =~= seq![id] + v.ids.filter(q));
    } else {
        crate::carrying::lemma_put_keeps(s1, id, b);
        lemma_get_put(s1.pool, id, b);
        crate::belonging::lemma_same_once(s1, s2);
    }
    assert(s2.pool.get(id) == Some(b));
    assert forall|x: WorkspaceId| #[trigger] s2.pool.busy(x) == q(x) by {
        assert(s1.pool.busy(x) == q(x));
    }
    assert(worth_keeping(s2.pool) =~= q);
    crate::belonging::lemma_filter_acts(s2.acts.ids(), elsewhere(act, members));
    assert forall|a: ActivityId, o: OutputId| a != act || o != out implies #[trigger] s2.view_of(
        a,
        o,
    ) == s.view_of(a, o) by {
        assert(s1.view_of(a, o) == s.view_of(a, o));
    }
    assert forall|i: int| 0 <= i < others.len() implies s2.pool.member(id, #[trigger] others[i])
        && s2.view_of(others[i], out) is Some by {
        assert(others.contains(others[i]));
    }
    assert forall|a: ActivityId, o: OutputId| others.contains(a) implies !(#[trigger] s2.shows_on(
        a,
        o,
        id,
    )) by {
        assert(!s.shows_on(a, o, id));
        assert(s2.view_of(a, o) == s.view_of(a, o));
    }
    lemma_enlist_all_views(s2, others, out, id);
    assert forall|a: ActivityId| #[trigger] members.contains(a) implies a == act || others.contains(
        a,
    ) by {
        lemma_act(s.acts, a);
        let i = s.acts.pos(a).unwrap();
        assert(s.acts.ids()[i] == a);
        assert(s2.acts.ids() == s.acts.ids());
    }
    assert forall|a: ActivityId, o: OutputId|
        !s3.pool.member(id, a) || o != out implies #[trigger] s3.view_of(a, o) == s.view_of(a, o) by {
        assert(s3.view_of(a, o) == s2.view_of(a, o));
    }
    assert forall|x: WorkspaceId| x != id && #[trigger] s.pool.busy(x) implies s3.pool.get(x)
        == s.pool.get(x) by {
        assert(s1.pool.busy(x));
    }
    assert forall|a: ActivityId| s3.pool.member(id, a) implies s.view_of(a, out) is Some
        && match #[trigger] s3.view_of(a, out) {
        Some(u) => {
            let v = s.view_of(a, out).unwrap();
            &&& u.ids.contains(id)
            &&& u.active == v.active
            &&& u.ids.filter(q) == if a == act {
                seq![id] + v.ids.filter(q)
            } else {
                v.ids.filter(q).push(id)
            }
        },
        None => false,
    } by {
        assert(members.contains(a));
        if a == act {
            assert(!others.contains(a));
            assert(s3.view_of(a, out) == s2.view_of(a, out));
        } else {
            assert(others.contains(a));
            assert(s2.view_of(a, out) == s.view_of(a, out));
        }
    }
    s3
}

/// No workspace is found by a name that none has.
pub proof fn lemma_unnamed(s: LayoutModel, name: Seq<char>)
    requires
        forall|x: WorkspaceId| #[trigger]
            s.pool.has(x) ==> match s.pool.get(x).unwrap().name {
                Some(n) => !same_name(n, name),
                None => true,
            },
    ensures
        s.named_workspace(name) is None,
{
    let p = crate::lookup::id_by_name(s.pool, name);
    assert forall|x: WorkspaceId| !(#[trigger] p(x)) by {
        if s.pool.get(x) is Some {
            assert(s.pool.has(x));
        }
    }
    crate::search::lemma_find_from(s.monitors, s.showing_name(name), 0);
    if let Some(m) = crate::search::find(s.monitors, s.showing_name(name)) {
        assert(s.showing_name(name)(s.monitors[m]));
        let ids = s.active_view(s.monitors[m].output.id).unwrap().ids;
        crate::search::lemma_find_from(ids, p, 0);
    }
    crate::search::lemma_find_from(s.parked, p, 0);
}

/// What an activity showed somewhere with windows or a name, it still shows there.
pub proof fn lemma_still_shown(
    s: LayoutModel,
    r: LayoutModel,
    a: ActivityId,
    p: OutputId,
    x: WorkspaceId,
    id: WorkspaceId,
    home: OutputId,
)
    requires
        s.shows_on(a, p, x),
        s.pool.busy(x),
        x != id,
        ({
            let q = |y: WorkspaceId| y == id || s.pool.busy(y);
            match r.view_of(a, p) {
                Some(w) => {
                    let v = s.view_of(a, p).unwrap();
                    ||| w == v
                    ||| w.ids.filter(q) == seq![id] + v.ids.filter(q)
                    ||| w.ids.filter(q) == v.ids.filter(q).push(id)
                },
                None => false,
            }
        }),
    ensures
        r.shows_on(a, p, x),
{
    let q = |y: WorkspaceId| y == id || s.pool.busy(y);
    let v = s.view_of(a, p).unwrap();
    let w = r.view_of(a, p).unwrap();
    if w != v {
        lemma_filter(v.ids, q);
        lemma_filter(w.ids, q);
        let f = v.ids.filter(q);
        assert(f.contains(x));
        let k = choose|k: int| 0 <= k < f.len() && f[k] == x;
        if w.ids.filter(q) == f.push(id) {
            assert(w.ids.filter(q)[k] == x);
        } else {
            assert(w.ids.filter(q)[k + 1] == x);
        }
        assert(w.ids.filter(q).contains(x));
    }
}

/// A workspace that is declared and not there yet opens on monitor `m`: the connected one that the
/// declaration designates, or else the primary one if it designates an output that is not
/// connected, or the focused one if it designates none. It is new and empty and has the name. It
/// belongs to the activities that the declaration mentions, to all of them if it is sticky, and to
/// the active one if it mentions none that there is. Each of them shows it on that monitor's output,
/// and on no other: the active one above everything that has windows or names there, the others
/// below. Nothing else is shown anywhere else, and what is active and focused stays so.
pub proof fn law_declared_workspace_opens_where_it_says(
    s: LayoutModel,
    d: WorkspaceDeclModel,
    m: int,
) -> (id: WorkspaceId)
    requires
        s.whole(),
        s.ensure_named(d).mended().fits(),
        forall|x: WorkspaceId| #[trigger]
            s.pool.has(x) ==> match s.pool.get(x).unwrap().name {
                Some(n) => !same_name(n, d.name),
                None => true,
            },
        0 <= m < s.monitors.len(),
        match d.open_on_output {
            Some(out) => out.designates(s.monitors[m].output) || (m == s.primary && forall|i: int|
                0 <= i < s.monitors.len() ==> !out.designates((#[trigger] s.monitors[i]).output)),
            None => m == s.focused,
        },
    ensures
        ({
            let t = s.ensure_named(d).mended();
            let home = s.monitors[m].output.id;
            let q = |x: WorkspaceId| x == id || s.pool.busy(x);
            &&& !s.pool.has(id)
            &&& t.pool.has(id)
            &&& t.pool.get(id).unwrap().name == Some(d.name)
            &&& t.pool.get(id).unwrap().sticky == d.sticky
            &&& t.pool.get(id).unwrap().tiles.len() == 0
            &&& forall|x: WorkspaceId| #[trigger] t.pool.busy(x) == (x == id || s.pool.busy(x))
            &&& forall|x: WorkspaceId|
                #![trigger t.pool.get(x)]
                t.pool.has(x) && (match t.pool.get(x).unwrap().name {
                    Some(n) => same_name(n, d.name),
                    None => false,
                }) ==> x == id
            &&& forall|i: int|
                0 <= i < s.acts.list.len() ==> (t.pool.member(id, (#[trigger] s.acts.list[i]).id)
                    <==> {
                    ||| d.sticky
                    ||| among(d.activities, s.acts.list[i].name)
                    ||| s.acts.list[i].id == s.acts.active && forall|j: int|
                        0 <= j < s.acts.list.len() ==> !among(
                            d.activities,
                            (#[trigger] s.acts.list[j]).name,
                        )
                })
            &&& forall|a: ActivityId, o: OutputId| #[trigger]
                t.shows_on(a, o, id) <==> (t.pool.member(id, a) && o == home)
            &&& forall|a: ActivityId, o: OutputId|
                s.view_of(a, o) is Some ==> match #[trigger] t.view_of(a, o) {
                    Some(w) => {
                        let v = s.view_of(a, o).unwrap();
                        &&& w.active == v.active
                        &&& w.ids.filter(q) == if o != home || !t.pool.member(id, a) {
                            v.ids.filter(q)
                        } else if a == s.acts.active {
                            seq![id] + v.ids.filter(q)
                        } else {
                            v.ids.filter(q).push(id)
                        }
                    },
                    None => false,
                }
            &&& t.acts.active == s.acts.active
            &&& t.focused == s.focused
        }),
{
    let t = s.ensure_named(d).mended();
    let home = s.monitors[m].output.id;
    let id = s.pool.next_id();
    let q = |x: WorkspaceId| x == id || s.pool.busy(x);
    lemma_unnamed(s, d.name);
    assert(m == s.opening_monitor(d)) by {
        if let Some(out) = d.open_on_output {
            let p = crate::reload::designated_by(out);
            crate::search::lemma_find_from(s.monitors, p, 0);
            if let Some(k) = crate::search::find(s.monitors, p) {
                assert(p(s.monitors[k]));
                assert(out.designates(s.monitors[k].output));
                if k < m {
                    assert(crate::cores::apart(s.monitors[k].output, s.monitors[m].output));
                } else if m < k {
                    assert(crate::cores::apart(s.monitors[m].output, s.monitors[k].output));
                }
            } else {
                assert(!p(s.monitors[m]));
            }
        }
    }
    crate::mending::lemma_mended_leads(s.ensure_named(d));
    let r = lemma_opened(s, d, m);
    let b = r.normalize();
    let n = r.monitors.len() as int;
    crate::bookends::lemma_normalize_leads(r);
    crate::keeping::law_normalize_adds_only(r);
    crate::parking::lemma_normalize_mons_calm(r, n, s.monitors[m].output);
    crate::abiding::law_opening_a_declared_workspace_keeps_whole(s, d);
    lemma_mended_work(b);
    assert(r.pool.busy(id));
    assert forall|x: WorkspaceId| #[trigger] t.pool.busy(x) == (x == id || s.pool.busy(x)) by {
        assert(b.pool.busy(x) == r.pool.busy(x));
    }
    assert forall|a: ActivityId| #[trigger] t.pool.member(id, a) == r.pool.member(id, a) by {}
    assert(b.pool.get(id) == r.pool.get(id));
    assert forall|a: ActivityId, o: OutputId| s.view_of(a, o) is Some implies match t.view_of(
        a,
        o,
    ) {
        Some(w) => r.view_of(a, o) is Some && w.active == r.view_of(a, o).unwrap().active
            && w.ids.filter(|x: WorkspaceId| r.view_of(a, o).unwrap().ids.contains(x)) == r.view_of(
            a,
            o,
        ).unwrap().ids && (forall|x: WorkspaceId| #[trigger]
            r.view_of(a, o).unwrap().ids.contains(x) ==> w.ids.contains(x)),
        None => false,
    } by {
        crate::wholeness::lemma_same_monitor(s, r, o);
        assert(s.monitor_pos(o) is Some);
        assert(r.view_of(a, o) is Some);
        lemma_settled_view(r, a, o);
    }
    assert forall|a: ActivityId, o: OutputId| #[trigger] t.shows_on(a, o, id) <==> (t.pool.member(
        id,
        a,
    ) && o == home) by {
        if t.pool.member(id, a) {
            assert(r.view_of(a, home) is Some);
            assert(t.shows_on(a, home, id));
        }
        if t.shows_on(a, o, id) {
            lemma_view_is_ok(t, a, o);
            assert(t.pool.member(id, a));
        }
    }
    assert forall|a: ActivityId, o: OutputId| s.view_of(a, o) is Some implies match #[trigger] t.view_of(
        a,
        o,
    ) {
        Some(w) => {
            let v = s.view_of(a, o).unwrap();
            &&& w.active == v.active
            &&& w.ids.filter(q) == if o != home || !t.pool.member(id, a) {
                v.ids.filter(q)
            } else if a == s.acts.active {
                seq![id] + v.ids.filter(q)
            } else {
                v.ids.filter(q).push(id)
            }
        },
        None => false,
    } by {
        let w = t.view_of(a, o).unwrap();
        let u = r.view_of(a, o).unwrap();
        let g = |x: WorkspaceId| u.ids.contains(x);
        assert forall|i: int| 0 <= i < w.ids.len() && #[trigger] q(w.ids[i]) implies g(w.ids[i]) by {
            let x = w.ids[i];
            assert(w.ids.contains(x));
            assert(t.shows_on(a, o, x));
            lemma_view_is_ok(t, a, o);
            assert(t.pool.member(x, a));
            if x != id {
                assert(s.pool.busy(x));
                assert(r.pool.get(x) == s.pool.get(x));
                assert(r.pool.busy(x));
                assert(b.pool.busy(x));
                assert(s.pool.member(x, a));
                let p = choose|p: OutputId| s.shows_on(a, p, x);
                lemma_still_shown(s, r, a, p, x, id, home);
                assert(t.shows_on(a, p, x));
            }
        }
        crate::cores::lemma_filter_filter(w.ids, g, q);
    }
    assert forall|i: int| 0 <= i < s.acts.list.len() implies (t.pool.member(
        id,
        (#[trigger] s.acts.list[i]).id,
    ) <==> {
        ||| d.sticky
        ||| among(d.activities, s.acts.list[i].name)
        ||| s.acts.list[i].id == s.acts.active && forall|j: int|
            0 <= j < s.acts.list.len() ==> !among(d.activities, (#[trigger] s.acts.list[j]).name)
    }) by {
        lemma_declared_members(s.acts, d, i);
    }
    assert forall|x: WorkspaceId|
        #![trigger t.pool.get(x)]
        t.pool.has(x) && (match t.pool.get(x).unwrap().name {
            Some(n) => same_name(n, d.name),
            None => false,
        }) implies x == id by {
        assert(t.pool.busy(x));
        if x != id {
            assert(s.pool.busy(x));
            assert(s.pool.has(x));
            assert(r.pool.busy(x));
            assert(b.pool.busy(x));
            assert(r.pool.get(x) == s.pool.get(x));
        }
    }
    assert(t.pool.busy(id));
    assert(t.pool.has(id));
    assert(t.pool.get(id).unwrap().name == Some(d.name));
    assert(t.pool.get(id).unwrap().sticky == d.sticky);
    assert(t.pool.get(id).unwrap().tiles.len() == 0);
    assert(t.focused == s.focused);
    assert(t.acts.active == s.acts.active);
    id
}

/// A workspace that is declared opens nothing where one of that name is shown by the active activity,
/// or waits.
pub proof fn law_declared_workspace_opens_once(s: LayoutModel, d: WorkspaceDeclModel, x: WorkspaceId)
    requires
        s.whole(),
        crate::finding::bears(s, x, d.name),
        (exists|o: OutputId| #[trigger] s.shows_on(s.acts.active, o, x)) || s.parked.contains(x),
    ensures
        s.ensure_named(d).mended() == s,
{
    crate::finding::law_name_finds_its_workspace(s, d.name);
    crate::wholeness::law_mending_is_idle(s);
    if s.parked.contains(x) {
        let i = choose|i: int| 0 <= i < s.parked.len() && s.parked[i] == x;
        assert(crate::finding::bears(s, s.parked[i], d.name));
    } else {
        let o = choose|o: OutputId| #[trigger] s.shows_on(s.acts.active, o, x);
        assert(s.shows_on(s.acts.active, o, x));
    }
}

/// With no output connected a workspace that is declared and not there yet waits. It is new and empty
/// and has the name, and it belongs to the activities that it would belong to otherwise. What was
/// there stays.
pub proof fn law_declared_workspace_waits_for_an_output(s: LayoutModel, d: WorkspaceDeclModel) -> (id:
    WorkspaceId)
    requires
        s.whole(),
        s.monitors.len() == 0,
        s.ensure_named(d).mended().fits(),
        forall|x: WorkspaceId| #[trigger]
            s.pool.has(x) ==> match s.pool.get(x).unwrap().name {
                Some(n) => !same_name(n, d.name),
                None => true,
            },
    ensures
        ({
            let t = s.ensure_named(d).mended();
            &&& !s.pool.has(id)
            &&& t.parked.contains(id)
            &&& t.pool.get(id).unwrap().name == Some(d.name)
            &&& t.pool.get(id).unwrap().sticky == d.sticky
            &&& t.pool.get(id).unwrap().tiles.len() == 0
            &&& forall|i: int|
                0 <= i < s.acts.list.len() ==> (t.pool.member(id, (#[trigger] s.acts.list[i]).id)
                    <==> {
                    ||| d.sticky
                    ||| among(d.activities, s.acts.list[i].name)
                    ||| s.acts.list[i].id == s.acts.active && forall|j: int|
                        0 <= j < s.acts.list.len() ==> !among(
                            d.activities,
                            (#[trigger] s.acts.list[j]).name,
                        )
                })
            &&& forall|x: WorkspaceId| #[trigger]
                s.pool.busy(x) ==> t.pool.has(x) && t.pool.get(x).unwrap().tiles == s.pool.get(
                    x,
                ).unwrap().tiles && t.pool.get(x).unwrap().name == s.pool.get(x).unwrap().name
        }),
{
    let r = s.ensure_named(d);
    let t = r.mended();
    let id = s.pool.next_id();
    let members = s.acts.declared_for(d);
    lemma_unnamed(s, d.name);
    crate::mending::lemma_mended_leads(r);
    lemma_declared_for(s.acts, d);
    let p = s.pool.mint_declared(d, members, None);
    let w = p.items[s.pool.items.len() as int];
    crate::coherence::lemma_push(s.pool, w);
    crate::reloading::law_opening_a_declared_workspace_keeps_coherence(s, d);
    crate::abiding::law_opening_a_declared_workspace_keeps_whole(s, d);
    lemma_mended_work(r);
    assert(r.pool == p);
    assert(r.pool.get(id) == Some(w));
    assert(r.pool.busy(id));
    assert(t.pool.has(id));
    assert forall|i: int| 0 <= i < s.acts.list.len() implies (t.pool.member(
        id,
        (#[trigger] s.acts.list[i]).id,
    ) <==> {
        ||| d.sticky
        ||| among(d.activities, s.acts.list[i].name)
        ||| s.acts.list[i].id == s.acts.active && forall|j: int|
            0 <= j < s.acts.list.len() ==> !among(d.activities, (#[trigger] s.acts.list[j]).name)
    }) by {
        lemma_declared_members(s.acts, d, i);
        assert(t.pool.member(id, s.acts.list[i].id) == r.pool.member(id, s.acts.list[i].id));
    }
    assert forall|x: WorkspaceId| #[trigger] s.pool.busy(x) implies t.pool.has(x) && t.pool.get(
        x,
    ).unwrap().tiles == s.pool.get(x).unwrap().tiles && t.pool.get(x).unwrap().name == s.pool.get(
        x,
    ).unwrap().name by {
        assert(x != id);
        assert(r.pool.get(x) == s.pool.get(x));
        assert(r.pool.busy(x));
    }
    id
}

} // verus!
