//! A workspace that is moved to an output is shown there, with all the activities that showed it on
//! the output it came from.

use vstd::prelude::*;

use crate::arraying::lemma_mended_order;
use crate::coherence::{lemma_act, lemma_get, lemma_get_put, lemma_view_is_ok};
use crate::declaring::lemma_attach_views;
use crate::ids::{ActivityId, OutputId, WindowId, WorkspaceId};
use crate::keeping_views::lemma_filter;
use crate::layout::LayoutModel;
use crate::outputs::worth_keeping;
use crate::persisting::lemma_mended_view;
use crate::reconcile::Stray;
use crate::search::{equal_to, lemma_find_from};
use crate::tallying::{count_on, lemma_idle_counts, lemma_mended_places};
use crate::transfer::{lemma_view_after_set, lemma_view_after_set_other};
use crate::workspace::WorkspaceModel;

verus! {

/// What taking a workspace in use off its strip does.
pub proof fn lemma_detached(s: LayoutModel, mon: int, idx: int)
    requires
        s.whole(),
        0 <= mon < s.monitors.len(),
        0 <= idx < s.view_len(mon),
        s.pool.busy(s.active_view(s.monitors[mon].output.id).unwrap().ids[idx]),
        s.detach(mon, idx).fits(),
    ensures
        ({
            let t = s.detach(mon, idx);
            let act = s.acts.active;
            let out = s.monitors[mon].output.id;
            let v = s.active_view(out).unwrap();
            let id = v.ids[idx];
            &&& t.coherent()
            &&& t.shown_once()
            &&& s.leads_to(t)
            &&& t.pool.get(id) == Some(s.pool.get(id).unwrap().unbind())
            &&& forall|x: WorkspaceId| #[trigger] t.pool.busy(x) == s.pool.busy(x)
            &&& forall|x: WorkspaceId|
                x != id && #[trigger] s.pool.busy(x) ==> t.pool.get(x) == s.pool.get(x)
            &&& forall|o: OutputId| !(#[trigger] t.shows_on(act, o, id))
            &&& forall|a: ActivityId, o: OutputId|
                a != act || o != out ==> #[trigger] t.view_of(a, o) == s.view_of(a, o)
            &&& forall|x: WorkspaceId| #[trigger]
                s.shows_on(act, out, x) && s.pool.busy(x) && x != id ==> t.shows_on(act, out, x)
        }),
{
    let m = s.monitors[mon];
    let out = m.output.id;
    let act = s.acts.active;
    let v = s.active_view(out).unwrap();
    let id = v.ids[idx];
    let w = s.pool.get(id).unwrap();
    let t = s.detach(mon, idx);
    crate::arrange::lemma_detach_leads(s, mon, idx);
    crate::tending::lemma_detach(s, mon, idx);
    lemma_act(s.acts, act);
    let i = s.acts.pos(act).unwrap();
    assert(s.ends_empty(s.acts.list[i].id, mon));
    assert(idx < v.ids.len() - 1);
    assert(s.detach_prepared(mon, idx) == s);
    lemma_view_is_ok(s, act, out);
    crate::view::lemma_remove_wf(v, idx);
    let u = v.remove_at(idx);
    let s2 = s.with_view(act, out, u);
    crate::coherence::lemma_with_view_coherent(s, act, out, u);
    lemma_view_after_set(s.acts, act, out, u);
    lemma_get(s.pool, id);
    let s3 = LayoutModel { pool: s2.pool.unbind(id), ..s2 };
    crate::carrying::lemma_put_keeps(s2, id, w.unbind());
    lemma_get_put(s2.pool, id, w.unbind());
    let s4 = s3.settle(mon);
    assert(t == s4.clean_up(mon));
    assert forall|a: ActivityId, o: OutputId| a != act || o != out implies #[trigger] s4.view_of(
        a,
        o,
    ) == s.view_of(a, o) by {
        lemma_view_after_set_other(s.acts, act, out, u, a, o);
    }
    assert(s4.view_of(act, out) == Some(u));
    assert forall|a: ActivityId, o: OutputId, x: WorkspaceId| #[trigger] s4.shows_on(
        a,
        o,
        x,
    ) implies s.shows_on(a, o, x) by {
        if a != act || o != out {
            assert(s4.view_of(a, o) == s.view_of(a, o));
        }
    }
    crate::belonging::lemma_shrunk_once(s, s4);
    assert forall|b: OutputId, x: WorkspaceId| b != out && #[trigger] s4.shows_on(
        act,
        b,
        x,
    ) implies !s4.shows_on(act, out, x) by {}
    crate::connecting::lemma_clean_up_views(s4, mon);
    crate::tending::lemma_clean_up_shrinks(s4, mon, id);
    crate::belonging::lemma_shrunk_once(s4, t);
    crate::keeping_views::lemma_clean_up(s4, mon);
    crate::cores::lemma_clean_up_calm(s4, mon, m.output);
    assert forall|x: WorkspaceId| #[trigger] s4.pool.busy(x) == s.pool.busy(x) by {
        lemma_get(s.pool, x);
    }
    assert forall|x: WorkspaceId| #[trigger] t.pool.busy(x) == s.pool.busy(x) by {
        assert(s4.pool.busy(x) == s.pool.busy(x));
    }
    assert forall|x: WorkspaceId| x != id && #[trigger] s.pool.busy(x) implies t.pool.get(x)
        == s.pool.get(x) by {
        assert(s4.pool.busy(x));
    }
    assert(s4.pool.busy(id));
    assert forall|x: WorkspaceId| #[trigger] s.shows_on(act, out, x) && s.pool.busy(x) && x
        != id implies t.shows_on(act, out, x) by {
        assert(u.ids.contains(x)) by {
            let k = choose|k: int| 0 <= k < v.ids.len() && v.ids[k] == x;
            assert(u.ids[if k < idx {
                k
            } else {
                k - 1
            }] == x);
        }
        let q = worth_keeping(s4.pool);
        assert(crate::cores::kept_view(s4.pool, s4.view_of(act, out), t.view_of(act, out)));
        let z = t.view_of(act, out).unwrap();
        lemma_filter(u.ids, q);
        lemma_filter(z.ids, q);
        assert(s4.pool.busy(x));
        assert(q(x));
        assert(u.ids.filter(q).contains(x));
        assert(z.ids.filter(q).contains(x));
    }
}

/// Following a workspace to another output, an activity that showed it on the one that it left shows
/// it there.
pub proof fn lemma_rehomed_in(
    s: LayoutModel,
    a: ActivityId,
    id: WorkspaceId,
    from: OutputId,
    to: OutputId,
)
    requires
        s.coherent(),
        from != to,
        a != s.acts.active,
        s.once_in(a),
        s.shows_on(a, from, id),
        s.view_of(a, to) is Some,
    ensures
        ({
            let t = s.rehome_in(a, id, from, to);
            &&& t.shows_on(a, to, id)
            &&& t.once_in(a)
        }),
{
    let t = s.rehome_in(a, id, from, to);
    let w = Stray { act: a, output: from, id };
    let r = s.unshow(w);
    crate::belonging::lemma_unshow_shrinks(s, w);
    crate::belonging::lemma_unshow(s, w);
    lemma_view_is_ok(s, a, to);
    assert(!s.shows_on(a, to, id));
    assert(r.view_of(a, to) == s.view_of(a, to));
    assert forall|o: OutputId| !(#[trigger] r.shows_on(a, o, id)) by {
        if r.shows_on(a, o, id) {
            assert(s.shows_on(a, o, id));
            assert(o == from);
        }
    }
    let u = r.view_of(a, to).unwrap();
    lemma_find_from(u.ids, equal_to(id), 0);
    assert(!r.shows_on(a, to, id));
    let z = u.insert(u.ids.len() - 1, id);
    lemma_view_after_set(r.acts, a, to, z);
    assert(t.view_of(a, to) == Some(z));
    assert(z.ids[u.ids.len() - 1] == id);
    assert forall|o1: OutputId, o2: OutputId, x: WorkspaceId|
        o1 != o2 && #[trigger] t.shows_on(a, o1, x) implies !(#[trigger] t.shows_on(a, o2, x)) by {
        if t.shows_on(a, o2, x) {
            crate::disconnecting::lemma_insert_contains(u.ids, u.ids.len() - 1, id, x);
            if o1 != to {
                lemma_view_after_set_other(r.acts, a, to, z, a, o1);
                assert(r.shows_on(a, o1, x));
                assert(s.shows_on(a, o1, x));
            }
            if o2 != to {
                lemma_view_after_set_other(r.acts, a, to, z, a, o2);
                assert(r.shows_on(a, o2, x));
                assert(s.shows_on(a, o2, x));
            }
            if o1 == to {
                assert(x != id);
                assert(r.shows_on(a, to, x));
                assert(s.shows_on(a, to, x));
            } else if o2 == to {
                assert(x != id);
                assert(r.shows_on(a, to, x));
                assert(s.shows_on(a, to, x));
            }
        }
    }
}

/// What following a workspace to another output does to the views of activity `a`.
pub proof fn lemma_rehomed(
    s: LayoutModel,
    acts: Seq<ActivityId>,
    id: WorkspaceId,
    from: OutputId,
    to: OutputId,
    a: ActivityId,
)
    requires
        s.coherent(),
        from != to,
        forall|i: int| 0 <= i < acts.len() ==> s.pool.member(id, #[trigger] acts[i]),
    ensures
        ({
            let t = s.rehome(acts, id, from, to);
            &&& !acts.contains(a) || a == s.acts.active ==> forall|o: OutputId| #[trigger]
                t.view_of(a, o) == s.view_of(a, o)
            &&& acts.contains(a) && a != s.acts.active && s.once_in(a) && s.shows_on(a, from, id)
                && s.view_of(a, to) is Some ==> t.shows_on(a, to, id) && t.once_in(a)
        }),
    decreases acts.len(),
{
    if acts.len() > 0 {
        let rest = acts.drop_last();
        let b = acts.last();
        assert(acts[acts.len() - 1] == b);
        assert forall|i: int| 0 <= i < rest.len() implies s.pool.member(id, #[trigger] rest[i]) by {
            assert(rest[i] == acts[i]);
        }
        assert(acts.contains(a) == (rest.contains(a) || a == b)) by {
            if acts.contains(a) {
                let k = choose|k: int| 0 <= k < acts.len() && acts[k] == a;
                if k < rest.len() {
                    assert(rest[k] == a);
                }
            }
            if rest.contains(a) {
                let k = choose|k: int| 0 <= k < rest.len() && rest[k] == a;
                assert(acts[k] == a);
            }
        }
        lemma_rehomed(s, rest, id, from, to, a);
        crate::tending::lemma_rehome(s, rest, id, from, to);
        crate::arrange::lemma_rehome_leads(s, rest, id, from, to);
        let r = s.rehome(rest, id, from, to);
        let t = r.rehome_in(b, id, from, to);
        let w = Stray { act: b, output: from, id };
        let u = r.unshow(w);
        crate::belonging::lemma_unshow(r, w);
        if b != a {
            assert forall|o: OutputId| #[trigger] t.view_of(a, o) == r.view_of(a, o) by {
                if b != r.acts.active {
                    if let Some(v) = u.view_of(b, to) {
                        lemma_view_after_set_other(
                            u.acts,
                            b,
                            to,
                            v.insert(v.ids.len() - 1, id),
                            a,
                            o,
                        );
                    }
                    assert(u.view_of(a, o) == r.view_of(a, o));
                }
            }
            assert forall|o: OutputId, x: WorkspaceId| #[trigger] t.shows_on(a, o, x) == r.shows_on(
                a,
                o,
                x,
            ) by {
                assert(t.view_of(a, o) == r.view_of(a, o));
            }
        } else if a != s.acts.active && s.once_in(a) && s.shows_on(a, from, id) && s.view_of(
            a,
            to,
        ) is Some {
            if rest.contains(a) {
                assert(!r.shows_on(a, from, id));
                let v = r.view_of(a, to).unwrap();
                lemma_find_from(v.ids, equal_to(id), 0);
                if v.position_of(id) is None {
                    let k = choose|k: int| 0 <= k < v.ids.len() && v.ids[k] == id;
                    assert(equal_to(id)(v.ids[k]));
                }
                assert(u == r) by {
                    if let Some(f) = r.view_of(a, from) {
                        lemma_find_from(f.ids, equal_to(id), 0);
                        if let Some(k) = f.position_of(id) {
                            assert(f.ids[k] == id);
                            assert(f.ids.contains(id));
                        }
                    }
                }
                assert(t == r);
            } else {
                assert forall|o: OutputId, x: WorkspaceId| #[trigger] r.shows_on(a, o, x)
                    == s.shows_on(a, o, x) by {
                    assert(r.view_of(a, o) == s.view_of(a, o));
                }
                assert(r.view_of(a, to) == s.view_of(a, to));
                assert(r.once_in(a));
                lemma_rehomed_in(r, a, id, from, to);
            }
        }
    }
}

/// A workspace in use that is moved from one output to another is shown there, right below the
/// workspace that is active there, by the active activity and by every other one that showed it on
/// the output it came from, and no longer on that. If it had the focus, it and that output have it;
/// otherwise the focus and the active workspace there stay. No window moves.
pub proof fn law_workspace_moves_to_an_output(s: LayoutModel, mon: int, idx: int, mon2: int, k: int)
    requires
        s.whole(),
        0 <= mon < s.monitors.len(),
        0 <= mon2 < s.monitors.len(),
        mon != mon2,
        0 <= idx < s.view_len(mon),
        s.pool.busy(s.active_view(s.monitors[mon].output.id).unwrap().ids[idx]),
        match s.view_of(s.acts.active, s.monitors[mon2].output.id) {
            Some(u) => 0 <= k < u.ids.len() && u.ids[k] == u.active,
            None => false,
        },
        s.transfer(mon, idx, mon2).mended().fits(),
    ensures
        ({
            let t = s.transfer(mon, idx, mon2).mended();
            let act = s.acts.active;
            let from = s.monitors[mon].output.id;
            let to = s.monitors[mon2].output.id;
            let v = s.view_of(act, from).unwrap();
            let u = s.view_of(act, to).unwrap();
            let id = v.ids[idx];
            let q = |x: WorkspaceId| s.pool.busy(x);
            let at = if k + 1 < u.ids.len() {
                k + 1
            } else {
                k
            };
            let focused = mon == s.focused && id == v.active;
            &&& forall|a: ActivityId| #[trigger]
                s.shows_on(a, from, id) ==> t.shows_on(a, to, id) && !t.shows_on(a, from, id)
            &&& match t.view_of(act, to) {
                Some(w) => {
                    &&& w.ids.filter(q) == u.ids.take(at).filter(q) + seq![id] + u.ids.skip(
                        at,
                    ).filter(q)
                    &&& w.active == if focused {
                        id
                    } else {
                        u.active
                    }
                },
                None => false,
            }
            &&& t.focused == if focused {
                mon2
            } else {
                s.focused
            }
            &&& t.acts.active == act
            &&& forall|x: WorkspaceId, w: WindowId| #[trigger]
                count_on(t.pool, x, w) == count_on(s.pool, x, w)
        }),
{
    let act = s.acts.active;
    let from = s.monitors[mon].output.id;
    let to = s.monitors[mon2].output.id;
    let v = s.view_of(act, from).unwrap();
    let u = s.view_of(act, to).unwrap();
    let id = v.ids[idx];
    let q = |x: WorkspaceId| s.pool.busy(x);
    let r = s.transfer(mon, idx, mon2);
    let t = r.mended();
    crate::mending::lemma_mended_leads(r);
    crate::lasting::law_moving_a_workspace_keeps_whole(s, mon, idx, mon2);
    crate::tending::law_moving_a_workspace_keeps_coherence(s, mon, idx, mon2);
    assert(from != to) by {
        if mon < mon2 {
            assert(crate::cores::apart(s.monitors[mon].output, s.monitors[mon2].output));
        } else {
            assert(crate::cores::apart(s.monitors[mon2].output, s.monitors[mon].output));
        }
    }
    crate::aiming::lemma_active_place(s, mon);
    crate::aiming::lemma_active_place(s, mon2);
    lemma_view_is_ok(s, act, from);
    lemma_view_is_ok(s, act, to);
    let pos = s.active_place(mon2).1;
    assert(pos == k);
    let activate = s.is_focused_place(mon, idx);
    assert(activate == (mon == s.focused && id == v.active));
    let s1 = s.detach(mon, idx);
    let w1 = s1.pool.get(id).unwrap();
    let b = WorkspaceModel { output_id: Some(to), ..w1 };
    let s2 = LayoutModel { pool: s1.pool.set_output(id, Some(to)), ..s1 };
    let s3 = s2.attach(mon2, id, k + 1, activate);
    let acts = s3.activities_of(id);
    let s4 = s3.rehome(acts, id, from, to);
    crate::arrange::lemma_detach_leads(s, mon, idx);
    crate::arrange::lemma_attach_leads(s2, mon2, id, k + 1, activate);
    crate::arrange::lemma_rehome_leads(s3, acts, id, from, to);
    lemma_detached(s, mon, idx);
    lemma_get(s1.pool, id);
    crate::carrying::lemma_put_keeps(s1, id, b);
    lemma_get_put(s1.pool, id, b);
    crate::belonging::lemma_same_once(s1, s2);
    assert(s1.pool.busy(id));
    assert forall|x: WorkspaceId| #[trigger] s2.pool.busy(x) == s.pool.busy(x) by {
        assert(s1.pool.busy(x) == s.pool.busy(x));
        lemma_get(s1.pool, x);
    }
    assert(s.pool.member(id, act)) by {
        assert(v.ids.contains(id));
    }
    assert(s2.pool.member(id, act));
    assert forall|o: OutputId| !(#[trigger] s2.shows_on(act, o, id)) by {
        assert(!s1.shows_on(act, o, id));
    }
    assert(s1.view_of(act, to) == s.view_of(act, to));
    assert(s2.view_of(act, to) == Some(u));
    assert(s2.monitors[mon2].output == s.monitors[mon2].output);
    lemma_attach_views(s2, mon2, id, k + 1, activate);
    assert(worth_keeping(s2.pool) =~= q);
    assert(acts == s.pool.get(id).unwrap().activities);
    assert forall|i: int| 0 <= i < acts.len() implies s3.pool.member(id, #[trigger] acts[i]) by {
        assert(acts.contains(acts[i]));
    }
    crate::tending::lemma_rehome(s3, acts, id, from, to);
    assert(r.pool == s4.pool && r.acts == s4.acts);
    assert forall|a: ActivityId, o: OutputId| #[trigger] r.view_of(a, o) == s4.view_of(a, o) by {}
    assert forall|x: WorkspaceId| #[trigger] s.pool.busy(x) implies r.pool.busy(x) && (forall|
        a: ActivityId,
    | s.pool.member(x, a) == #[trigger] r.pool.member(x, a)) && r.pool.get(x).unwrap().tiles
        == s.pool.get(x).unwrap().tiles by {
        assert(s1.pool.busy(x));
        assert(s2.pool.busy(x));
        if x != id {
            assert(s1.pool.get(x) == s.pool.get(x));
            assert(s2.pool.get(x) == s1.pool.get(x));
        }
    }
    assert forall|x: WorkspaceId| #[trigger] r.pool.busy(x) implies s.pool.busy(x) by {
        assert(s3.pool.busy(x) == s2.pool.busy(x));
    }
    // The active activity.
    lemma_rehomed(s3, acts, id, from, to, act);
    assert forall|o: OutputId| #[trigger] r.view_of(act, o) == s3.view_of(act, o) by {}
    assert forall|o1: OutputId, o2: OutputId, x: WorkspaceId|
        o1 != o2 && #[trigger] r.shows_on(act, o1, x) implies !(#[trigger] r.shows_on(
        act,
        o2,
        x,
    )) by {
        assert(r.view_of(act, o1) == s3.view_of(act, o1));
        assert(r.view_of(act, o2) == s3.view_of(act, o2));
        assert(s3.shows_on(act, o1, x));
        assert(!s3.shows_on(act, o2, x));
    }
    let z = r.view_of(act, to).unwrap();
    lemma_filter(z.ids, q);
    assert forall|p: OutputId, x: WorkspaceId| #[trigger] s.shows_on(act, p, x) && q(
        x,
    ) implies z.ids.contains(x) || (p != to && r.shows_on(act, p, x)) by {
        if x != id {
            assert(r.view_of(act, p) == s3.view_of(act, p));
            if p == from {
                assert(s1.shows_on(act, from, x));
                assert(s3.view_of(act, from) == s2.view_of(act, from));
            } else if p != to {
                assert(s3.view_of(act, p) == s2.view_of(act, p));
                assert(s1.view_of(act, p) == s.view_of(act, p));
            } else {
                lemma_spliced_contains(u.ids, k + 1, id, q, x);
                assert(z.ids.filter(q).contains(x));
            }
        }
    }
    lemma_mended_order(s, r, act, to, q);
    assert(s.monitor_pos(to) is Some);
    // Every activity that showed it.
    assert forall|a: ActivityId| #[trigger] s.shows_on(a, from, id) implies t.shows_on(a, to, id)
        && !t.shows_on(a, from, id) by {
        lemma_view_is_ok(s, a, from);
        assert(s.pool.member(id, a));
        assert(acts.contains(a));
        assert(r.shows_on(a, to, id) && r.once_in(a)) by {
            if a == act {
            } else {
                assert forall|o: OutputId| #[trigger] s3.view_of(a, o) == s.view_of(a, o) by {
                    assert(s1.view_of(a, o) == s.view_of(a, o));
                    assert(s2.view_of(a, o) == s1.view_of(a, o));
                }
                assert forall|o: OutputId, x: WorkspaceId| #[trigger] s3.shows_on(a, o, x)
                    == s.shows_on(a, o, x) by {
                    assert(s3.view_of(a, o) == s.view_of(a, o));
                }
                lemma_act(s.acts, a);
                let i = s.acts.pos(a).unwrap();
                assert(s.view_of(s.acts.list[i].id, s.monitors[mon2].output.id) is Some);
                assert(s3.view_of(a, to) is Some);
                assert(s3.once_in(a));
                lemma_rehomed(s3, acts, id, from, to, a);
                assert forall|o: OutputId, x: WorkspaceId| #[trigger] r.shows_on(a, o, x)
                    == s4.shows_on(a, o, x) by {
                    assert(r.view_of(a, o) == s4.view_of(a, o));
                }
                assert(s4.once_in(a));
            }
        }
        crate::wholeness::lemma_same_monitor(s, r, to);
        assert forall|p: OutputId, x: WorkspaceId| p != to && #[trigger] r.shows_on(
            a,
            p,
            x,
        ) implies !r.view_of(a, to).unwrap().ids.contains(x) by {
            assert(!r.shows_on(a, to, x));
        }
        lemma_mended_view(r, a, to);
        assert(t.shows_on(a, to, id));
    }
    lemma_mended_places(r);
    assert forall|x: WorkspaceId, w: WindowId| #[trigger] count_on(t.pool, x, w) == count_on(
        s.pool,
        x,
        w,
    ) by {
        assert(count_on(t.pool, x, w) == count_on(r.pool, x, w));
        if !s.pool.busy(x) {
            lemma_idle_counts(s.pool, x, w);
            lemma_idle_counts(r.pool, x, w);
        }
    }
}

/// What was picked is still there when one more is put in.
pub proof fn lemma_spliced_contains(
    ids: Seq<WorkspaceId>,
    at: int,
    id: WorkspaceId,
    q: spec_fn(WorkspaceId) -> bool,
    x: WorkspaceId,
)
    requires
        0 <= at,
        ids.contains(x),
        q(x),
    ensures
        ({
            let k = if at < ids.len() {
                at
            } else {
                ids.len() - 1
            };
            (ids.take(k).filter(q) + seq![id] + ids.skip(k).filter(q)).contains(x)
        }),
{
    let k = if at < ids.len() {
        at
    } else {
        ids.len() - 1
    };
    let a = ids.take(k).filter(q);
    let b = ids.skip(k).filter(q);
    let all = a + seq![id] + b;
    lemma_filter(ids.take(k), q);
    lemma_filter(ids.skip(k), q);
    let j = choose|j: int| 0 <= j < ids.len() && ids[j] == x;
    if j < k {
        assert(ids.take(k)[j] == x);
        assert(a.contains(x));
        let i = choose|i: int| 0 <= i < a.len() && a[i] == x;
        assert(all[i] == x);
    } else {
        assert(ids.skip(k)[j - k] == x);
        assert(b.contains(x));
        let i = choose|i: int| 0 <= i < b.len() && b[i] == x;
        assert(all[a.len() + 1 + i] == x);
    }
}

/// The monitor that a workspace is moved from is the one of the output that was given, or the focused
/// one if none was.
pub proof fn law_source_is_the_output_given(s: LayoutModel, out: Option<OutputId>)
    requires
        s.whole(),
        s.monitors.len() > 0,
        out is Some ==> s.monitor_pos(out.unwrap()) is Some,
    ensures
        0 <= s.source_monitor(out) < s.monitors.len(),
        s.monitors[s.source_monitor(out)].output.id == match out {
            Some(o) => o,
            None => s.monitors[s.focused].output.id,
        },
{
    if let Some(o) = out {
        lemma_find_from(s.monitors, crate::layout::on_output(o), 0);
    }
}

} // verus!
