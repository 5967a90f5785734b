//! Taking windows out, putting them in anywhere, naming workspaces and moving them between outputs
//! keeps the layout coherent.

use vstd::prelude::*;

use crate::activity::{keyed, named};
use crate::belonging::{lemma_entry_is_view, lemma_unshow};
use crate::carrying::lemma_put_keeps;
use crate::coherence::{
    activity_ok, lemma_alike_coherent, lemma_get, lemma_get_remove, lemma_view_is_ok,
    lemma_with_view_coherent, member_ok, view_ok,
};
use crate::ids::{ActivityId, OutputId, WindowId, WorkspaceId};
use crate::keeping::{lemma_destroy, lemma_destroy_all};
use crate::keeping_outputs::lemma_settle;
use crate::keeping_views::{lemma_clean_up, lemma_filter, lemma_swept};
use crate::layout::LayoutModel;
use crate::lookup::having;
use crate::placing::{lemma_lock_all, lemma_removed_wf};
use crate::reclaim::{doubled, pruned, swept};
use crate::search::{equal_to, find, lemma_find_from, lemma_find_map};
use crate::transfer::{lemma_view_after_set, lemma_view_after_set_other};
use crate::view::{lemma_insert_wf, lemma_remove_wf, ViewModel};
use crate::windows::id_having;
use crate::workspace::WorkspaceModel;

verus! {

impl LayoutModel {
    /// No activity shows workspace `id`.
    pub open spec fn unseen(self, id: WorkspaceId) -> bool {
        forall|a: ActivityId, o: OutputId| !(#[trigger] self.shows_on(a, o, id))
    }

    /// What waits for an output waits once, and no activity shows it.
    pub open spec fn waits_unseen(self) -> bool {
        &&& self.parked.no_duplicates()
        &&& forall|i: int| 0 <= i < self.parked.len() ==> self.unseen(#[trigger] self.parked[i])
    }
}

/// Taking a workspace that no activity shows out of the pool keeps the layout coherent.
pub proof fn lemma_drop_unseen(s: LayoutModel, id: WorkspaceId)
    requires
        s.coherent(),
        s.unseen(id),
        !s.parked.contains(id),
    ensures
        (LayoutModel { pool: s.pool.remove(id), ..s }).coherent(),
{
    let q = s.pool.remove(id);
    let t = LayoutModel { pool: q, ..s };
    lemma_get_remove(s.pool, id);
    assert forall|i: int| 0 <= i < s.acts.list.len() implies activity_ok(
        q,
        #[trigger] s.acts.list[i],
    ) by {
        let a = s.acts.list[i];
        assert(activity_ok(s.pool, a));
        assert forall|j: int| 0 <= j < a.views.len() implies view_ok(
            q,
            a.id,
            (#[trigger] a.views[j]).view,
        ) by {
            lemma_entry_is_view(s, i, j);
            let v = a.views[j].view;
            assert(view_ok(s.pool, a.id, v));
            assert forall|x: WorkspaceId| #[trigger] v.ids.contains(x) implies q.member(x, a.id) by {
                assert(s.shows_on(a.id, a.views[j].output, x));
                assert(x != id);
                assert(q.get(x) == s.pool.get(x));
                assert(s.pool.member(x, a.id));
            }
        }
    }
    assert forall|i: int| 0 <= i < q.items.len() implies member_ok(
        s.acts,
        #[trigger] q.items[i],
    ) by {
        lemma_get(s.pool, id);
        match s.pool.pos(id) {
            Some(k) => {
                let j = if i < k {
                    i
                } else {
                    i + 1
                };
                assert(q.items[i] == s.pool.items[j]);
                assert(member_ok(s.acts, s.pool.items[j]));
            },
            None => {
                assert(member_ok(s.acts, s.pool.items[i]));
            },
        }
    }
    assert forall|i: int| 0 <= i < t.parked.len() implies q.has(#[trigger] t.parked[i]) by {
        assert(s.pool.has(s.parked[i]));
        assert(s.parked.contains(s.parked[i]));
        assert(q.get(s.parked[i]) == s.pool.get(s.parked[i]));
        lemma_get(q, s.parked[i]);
        lemma_get(s.pool, s.parked[i]);
    }
}

/// Taking a workspace that belongs to one activity alone out of its only view there is leaves it
/// unseen.
pub proof fn lemma_alone_unseen(s: LayoutModel, out: OutputId, v: ViewModel, id: WorkspaceId)
    requires
        s.coherent(),
        s.pool.exclusive(id),
        s.pool.member(id, s.acts.active),
        s.active_view(out) is Some,
        view_ok(s.pool, s.acts.active, v),
        !v.ids.contains(id),
        forall|b: OutputId| b != out ==> !(#[trigger] s.shows_on(s.acts.active, b, id)),
    ensures
        s.with_view(s.acts.active, out, v).coherent(),
        s.with_view(s.acts.active, out, v).unseen(id),
{
    let act = s.acts.active;
    let t = s.with_view(act, out, v);
    lemma_with_view_coherent(s, act, out, v);
    lemma_view_after_set(s.acts, act, out, v);
    assert forall|a: ActivityId, o: OutputId| !(#[trigger] t.shows_on(a, o, id)) by {
        if t.shows_on(a, o, id) {
            lemma_view_is_ok(t, a, o);
            assert(t.pool.member(id, a));
            let w = s.pool.get(id).unwrap();
            assert(w.activities.contains(act));
            assert(w.activities.contains(a));
            assert(a == act);
            if o != out {
                lemma_view_after_set_other(s.acts, act, out, v, act, o);
                assert(s.shows_on(act, o, id));
            }
        }
    }
}

/// Taking a window off a workspace on screen keeps the layout coherent.
pub proof fn lemma_take_shown(s: LayoutModel, mon: int, idx: int, w: WindowId)
    requires
        s.coherent(),
        s.shown_once(),
        0 <= mon < s.monitors.len(),
        match s.active_view(s.monitors[mon].output.id) {
            Some(v) => 0 <= idx < v.ids.len(),
            None => false,
        },
    ensures
        s.take_shown(mon, idx, w).coherent(),
{
    let m = s.monitors[mon];
    let out = m.output.id;
    let act = s.acts.active;
    let v = s.active_view(out).unwrap();
    let id = v.ids[idx];
    let p = s.pool.remove_window(id, w);
    let s1 = LayoutModel { pool: p, ..s };
    lemma_removed_wf(s.pool, id, w);
    lemma_alike_coherent(s, p);
    lemma_view_is_ok(s1, act, out);
    assert(s1.view_of(act, out) == Some(v));
    assert(v.ids.contains(id));
    let still = m.workspace_switch is None;
    let cull = !p.busy(id) && idx != v.active_position() && idx != v.ids.len() - 1 && still
        && p.exclusive(id);
    let v1 = if cull {
        v.remove_at(idx)
    } else {
        v
    };
    let p1 = if cull {
        p.remove(id)
    } else {
        p
    };
    let s2 = s1.with_view(act, out, v1);
    let s3 = LayoutModel { pool: p1, ..s2 };
    assert forall|b: OutputId, x: WorkspaceId| b != out && v.ids.contains(x) implies !(
    #[trigger] s1.shows_on(act, b, x)) by {
        assert(s.shows_on(act, out, x));
        assert(!s.shows_on(act, b, x));
        assert(s1.view_of(act, b) == s.view_of(act, b));
    }
    if cull {
        lemma_remove_wf(v, idx);
        assert(view_ok(p, act, v1));
        lemma_alone_unseen(s1, out, v1, id);
        lemma_drop_unseen(s2, id);
    } else {
        lemma_with_view_coherent(s1, act, out, v1);
    }
    assert(s3.coherent());
    lemma_view_after_set(s1.acts, act, out, v1);
    assert(s3.view_of(act, out) == Some(v1));
    lemma_view_is_ok(s3, act, out);
    if still && doubled(p1, v1, m.empty_workspace_above_first) {
        let x = v1.ids[1];
        let v2 = v1.remove_at(1);
        assert(v1.ids.contains(x));
        assert(v.ids.contains(x)) by {
            if cull {
                assert(v.remove_at(idx).ids.contains(x));
            }
        }
        lemma_remove_wf(v1, 1);
        assert(view_ok(p1, act, v2));
        assert forall|b: OutputId| b != out implies !(#[trigger] s3.shows_on(act, b, x)) by {
            lemma_view_after_set_other(s1.acts, act, out, v1, act, b);
            assert(!s1.shows_on(act, b, x));
        }
        lemma_alone_unseen(s3, out, v2, x);
        let s4 = s3.with_view(act, out, v2);
        lemma_drop_unseen(s4, x);
        let r = s.take_shown(mon, idx, w);
        assert(r.acts == s1.acts.set_view(act, out, v2));
        lemma_set_twice(s1, act, out, v1, v2);
        assert(r =~= LayoutModel { pool: p1.remove(x), ..s4 });
    } else {
        assert(s.take_shown(mon, idx, w) =~= s3);
    }
}

/// Of two changes of one view the second one counts.
pub proof fn lemma_set_twice(s: LayoutModel, act: ActivityId, out: OutputId, v1: ViewModel, v2: ViewModel)
    requires
        s.coherent(),
        s.view_of(act, out) is Some,
    ensures
        s.acts.set_view(act, out, v1).set_view(act, out, v2) == s.acts.set_view(act, out, v2),
{
    let a = s.acts.get(act).unwrap();
    crate::coherence::lemma_act(s.acts, act);
    lemma_find_from(a.views, keyed(out), 0);
    let b = a.set_view(out, v1);
    let t = s.acts.set_view(act, out, v1);
    lemma_find_map(t.list, s.acts.list, named(act), named(act));
    lemma_find_map(b.views, a.views, keyed(out), keyed(out));
    assert(b.set_view(out, v2).views =~= a.set_view(out, v2).views);
    assert(t.set_view(act, out, v2).list =~= s.acts.set_view(act, out, v2).list);
}

/// Taking a workspace out that waits keeps the layout coherent.
pub proof fn lemma_unpark(s: LayoutModel, i: int)
    requires
        s.coherent(),
        s.waits_unseen(),
        0 <= i < s.parked.len(),
    ensures
        (LayoutModel {
            pool: s.pool.remove(s.parked[i]),
            parked: s.parked.remove(i),
            ..s
        }).coherent(),
{
    let id = s.parked[i];
    let rest = s.parked.remove(i);
    let t = LayoutModel { parked: rest, ..s };
    assert forall|j: int| 0 <= j < rest.len() implies t.pool.has(#[trigger] rest[j]) && rest[j]
        != id by {
        let k = if j < i {
            j
        } else {
            j + 1
        };
        assert(rest[j] == s.parked[k]);
        assert(s.pool.has(s.parked[k]));
    }
    assert(s.unseen(s.parked[i]));
    assert(t.unseen(id)) by {
        assert forall|a: ActivityId, o: OutputId| !(#[trigger] t.shows_on(a, o, id)) by {
            assert(!s.shows_on(a, o, id));
        }
    }
    lemma_drop_unseen(t, id);
}

/// Taking a window out keeps the layout coherent.
pub proof fn law_removing_a_window_keeps_coherence(s: LayoutModel, w: WindowId)
    requires
        s.coherent(),
        s.shown_once(),
        s.waits_unseen(),
    ensures
        s.take_window(w).coherent(),
{
    let q = s.pool.lock_all(false);
    lemma_lock_all(s.pool, false);
    lemma_alike_coherent(s, q);
    let f = s.release();
    let g = LayoutModel { pool: q, ..s };
    assert(g.coherent());
    assert(f.monitors.len() == g.monitors.len());
    assert forall|i: int| 0 <= i < f.parked.len() implies f.pool.has(#[trigger] f.parked[i]) by {
        assert(g.pool.has(g.parked[i]));
    }
    assert(f.coherent());
    assert forall|a: ActivityId, o: OutputId, x: WorkspaceId| #[trigger]
        f.shows_on(a, o, x) == s.shows_on(a, o, x) by {}
    assert(f.shown_once());
    assert(f.waits_unseen()) by {
        assert forall|i: int| 0 <= i < f.parked.len() implies f.unseen(#[trigger] f.parked[i]) by {
            assert(s.unseen(s.parked[i]));
        }
    }
    if !s.is_dragged(w) {
        let r = s.ungrabbed(w);
        assert(s.take_window(w) == r.picked_off(w));
        assert(r.coherent() && r.shown_once() && r.waits_unseen());
        lemma_picked_off(r, w);
    }
}

/// Taking a window off its workspace keeps the layout coherent.
pub proof fn lemma_picked_off(s: LayoutModel, w: WindowId)
    requires
        s.coherent(),
        s.shown_once(),
        s.waits_unseen(),
    ensures
        s.picked_off(w).coherent(),
{
    let showing = s.showing_window(w);
    lemma_find_from(s.monitors, showing, 0);
    match s.window_place(w) {
        Some((mon, idx)) => {
            let v = s.active_view(s.monitors[mon].output.id).unwrap();
            lemma_find_from(v.ids, id_having(s.pool, w), 0);
            lemma_take_shown(s, mon, idx, w);
        },
        None => {
            lemma_find_from(s.parked, id_having(s.pool, w), 0);
            match find(s.parked, id_having(s.pool, w)) {
                Some(i) => {
                    let id = s.parked[i];
                    let p = s.pool.remove_window(id, w);
                    let t = LayoutModel { pool: p, ..s };
                    lemma_removed_wf(s.pool, id, w);
                    lemma_alike_coherent(s, p);
                    assert(t.waits_unseen()) by {
                        assert forall|j: int| 0 <= j < t.parked.len() implies t.unseen(
                            #[trigger] t.parked[j],
                        ) by {
                            assert(s.unseen(s.parked[j]));
                            assert forall|a: ActivityId, o: OutputId| !(#[trigger] t.shows_on(
                                a,
                                o,
                                t.parked[j],
                            )) by {
                                assert(!s.shows_on(a, o, s.parked[j]));
                            }
                        }
                    }
                    lemma_unpark(t, i);
                },
                None => {
                    if let Some(id) = s.pool.first(having(w)) {
                        let p = s.pool.remove_window(id, w);
                        let t = LayoutModel { pool: p, ..s };
                        lemma_removed_wf(s.pool, id, w);
                        lemma_alike_coherent(s, p);
                        lemma_find_from(s.pool.items, having(w), 0);
                        let k = find(s.pool.items, having(w)).unwrap();
                        crate::coherence::lemma_pos_of(s.pool, k);
                        assert(id_having(s.pool, w)(id));
                        assert(!t.parked.contains(id)) by {
                            if s.parked.contains(id) {
                                let j = choose|j: int| 0 <= j < s.parked.len() && s.parked[j] == id;
                                assert(id_having(s.pool, w)(s.parked[j]));
                            }
                        }
                        lemma_destroy(t, id);
                    }
                },
            }
        },
    }
}

/// Destroying workspaces makes no activity show anything new.
pub proof fn lemma_destroy_all_shrinks(s: LayoutModel, ids: Seq<WorkspaceId>)
    requires
        s.coherent(),
        forall|i: int|
            0 <= i < ids.len() ==> s.pool.shared(#[trigger] ids[i]) || !s.parked.contains(ids[i]),
    ensures
        forall|a: ActivityId, o: OutputId, x: WorkspaceId| #[trigger]
            s.destroy_all(ids).shows_on(a, o, x) ==> s.shows_on(a, o, x),
    decreases ids.len(),
{
    if ids.len() > 0 {
        let rest = ids.drop_last();
        let id = ids.last();
        assert forall|i: int| 0 <= i < rest.len() implies s.pool.shared(#[trigger] rest[i])
            || !s.parked.contains(rest[i]) by {
            assert(rest[i] == ids[i]);
        }
        lemma_destroy_all_shrinks(s, rest);
        lemma_destroy_all(s, rest);
        crate::reclaim::lemma_destroy_all_leads(s, rest);
        let t = s.destroy_all(rest);
        assert(ids[ids.len() - 1] == id);
        if !t.pool.shared(id) {
            assert(!t.parked.contains(id)) by {
                if s.pool.shared(id) {
                    assert(t.pool.get(id) == s.pool.get(id));
                }
            }
            lemma_destroy(t, id);
            let r = t.destroy(id);
            assert forall|a: ActivityId, o: OutputId, x: WorkspaceId| #[trigger]
                r.shows_on(a, o, x) implies t.shows_on(a, o, x) by {
                assert(r.view_of(a, o) == match t.view_of(a, o) {
                    Some(v) => crate::keeping::rid(v, id),
                    None => None,
                });
                let v = t.view_of(a, o).unwrap();
                if let Some(p) = v.position_of(id) {
                    lemma_find_from(v.ids, equal_to(id), 0);
                    lemma_view_is_ok(t, a, o);
                    lemma_remove_wf(v, p);
                }
            }
        }
    }
}

/// Sweeping a monitor makes no activity show anything new, and spares what is not shown there.
pub proof fn lemma_clean_up_shrinks(s: LayoutModel, mon: int, id: WorkspaceId)
    requires
        s.coherent(),
        0 <= mon < s.monitors.len(),
    ensures
        s.clean_up(mon).coherent(),
        forall|a: ActivityId, o: OutputId, x: WorkspaceId| #[trigger]
            s.clean_up(mon).shows_on(a, o, x) ==> s.shows_on(a, o, x),
        !s.shows_on(s.acts.active, s.monitors[mon].output.id, id) ==> s.clean_up(mon).pool.get(id)
            == s.pool.get(id),
{
    let m = s.monitors[mon];
    let leading = m.empty_workspace_above_first;
    let act = s.acts.active;
    let out = m.output.id;
    lemma_clean_up(s, mon);
    if let Some(v) = s.active_view(out) {
        if v.ids.len() > 0 {
            lemma_view_is_ok(s, act, out);
            let v1 = swept(s.pool, v, leading);
            lemma_swept(s.pool, v, leading);
            let gone = v.ids.filter(pruned(s.pool, v, leading));
            lemma_filter(v.ids, pruned(s.pool, v, leading));
            let double = doubled(s.pool, v1, leading);
            let v2 = if double {
                v1.remove_at(1)
            } else {
                v1
            };
            let ids = if double {
                gone.push(v1.ids[1])
            } else {
                gone
            };
            if double {
                lemma_remove_wf(v1, 1);
                assert(v1.ids.contains(v1.ids[1]));
            }
            let t = s.with_view(act, out, v2);
            lemma_with_view_coherent(s, act, out, v2);
            assert forall|i: int| 0 <= i < ids.len() implies v.ids.contains(#[trigger] ids[i]) by {
                if i < gone.len() {
                    assert(gone.contains(gone[i]));
                }
            }
            lemma_destroy_all(t, ids);
            lemma_destroy_all_shrinks(t, ids);
            lemma_view_after_set(s.acts, act, out, v2);
            assert forall|a: ActivityId, o: OutputId, x: WorkspaceId| #[trigger]
                t.shows_on(a, o, x) implies s.shows_on(a, o, x) by {
                if a == act && o == out {
                    assert(v2.ids.contains(x));
                    assert(v1.ids.contains(x));
                } else {
                    lemma_view_after_set_other(s.acts, act, out, v2, a, o);
                }
            }
            assert(s.clean_up(mon) == t.destroy_all(ids));
            if !s.shows_on(act, out, id) {
                assert(!ids.contains(id)) by {
                    if ids.contains(id) {
                        let k = choose|k: int| 0 <= k < ids.len() && ids[k] == id;
                        assert(v.ids.contains(ids[k]));
                    }
                }
                assert(t.destroy_all(ids).pool.get(id) == t.pool.get(id));
            }
        }
    }
}

/// A new empty workspace in a view is the only thing that view shows anew.
pub proof fn lemma_added(s: LayoutModel, mon: int, pos: int)
    requires
        s.coherent(),
        0 <= mon < s.monitors.len(),
        match s.active_view(s.monitors[mon].output.id) {
            Some(v) => 0 <= pos <= v.ids.len(),
            None => false,
        },
        s.add_workspace_at(mon, pos).fits(),
    ensures
        ({
            let t = s.add_workspace_at(mon, pos);
            let out = s.monitors[mon].output.id;
            &&& t.coherent()
            &&& s.leads_to(t)
            &&& t.active_view(out) == Some(
                s.active_view(out).unwrap().insert(pos, s.pool.next_id()),
            )
            &&& forall|b: OutputId| b != out ==> #[trigger] t.view_of(s.acts.active, b) == s.view_of(
                s.acts.active,
                b,
            )
            &&& forall|x: WorkspaceId| #[trigger] s.pool.has(x) ==> t.pool.get(x) == s.pool.get(x)
        }),
{
    let act = s.acts.active;
    let out = s.monitors[mon].output.id;
    let v = s.active_view(out).unwrap();
    let u = v.insert(pos, s.pool.next_id());
    let t = s.add_workspace_at(mon, pos);
    crate::bookends::lemma_mint_into_leads(s, mon, act, pos);
    crate::keeping::lemma_mint_into(s, mon, act, pos);
    lemma_view_after_set(s.acts, act, out, u);
    assert(t.acts == s.acts.set_view(act, out, u));
    assert forall|b: OutputId| b != out implies #[trigger] t.view_of(act, b) == s.view_of(act, b) by {
        lemma_view_after_set_other(s.acts, act, out, u, act, b);
    }
}

/// Readying a view for one of its workspaces to leave keeps that one in place.
pub proof fn lemma_detach_prepared(s: LayoutModel, mon: int, idx: int)
    requires
        s.coherent(),
        0 <= mon < s.monitors.len(),
        match s.active_view(s.monitors[mon].output.id) {
            Some(v) => 0 <= idx < v.ids.len(),
            None => false,
        },
        s.detach_prepared(mon, idx).fits(),
    ensures
        ({
            let t = s.detach_prepared(mon, idx);
            let m = s.monitors[mon];
            let pos = if m.empty_workspace_above_first && idx == 0 {
                1
            } else {
                idx
            };
            let id = s.active_view(m.output.id).unwrap().ids[idx];
            &&& t.coherent()
            &&& s.leads_to(t)
            &&& t.active_view(m.output.id) is Some
            &&& pos + 1 < t.active_view(m.output.id).unwrap().ids.len()
            &&& t.active_view(m.output.id).unwrap().ids[pos] == id
            &&& t.pool.get(id) == s.pool.get(id)
            &&& forall|b: OutputId| b != m.output.id ==> #[trigger] t.view_of(s.acts.active, b)
                == s.view_of(s.acts.active, b)
        }),
{
    let m = s.monitors[mon];
    let v = s.active_view(m.output.id).unwrap();
    let id = v.ids[idx];
    let n = v.ids.len() as int;
    lemma_view_is_ok(s, s.acts.active, m.output.id);
    assert(v.ids.contains(id));
    assert(s.pool.member(id, s.acts.active));
    let low = idx == n - 1;
    let lead = m.empty_workspace_above_first && idx == 0;
    let s1 = if low {
        s.add_workspace_bottom(mon)
    } else {
        s
    };
    if low {
        crate::bookends::lemma_mint_into_leads(s, mon, s.acts.active, n);
    }
    if lead {
        crate::bookends::lemma_mint_into_leads(s1, mon, s.acts.active, 0);
    }
    assert(s.pool.has(id));
    if low {
        lemma_added(s, mon, n);
    }
    assert(s1.pool.get(id) == s.pool.get(id));
    assert(s1.pool.has(id));
    if lead {
        lemma_added(s1, mon, 0);
    }
}

/// Taking a workspace out of the active view of a monitor keeps the layout coherent; the workspace
/// is still there.
pub proof fn lemma_detach(s: LayoutModel, mon: int, idx: int)
    requires
        s.coherent(),
        s.shown_once(),
        0 <= mon < s.monitors.len(),
        match s.active_view(s.monitors[mon].output.id) {
            Some(v) => 0 <= idx < v.ids.len(),
            None => false,
        },
        s.detach(mon, idx).fits(),
    ensures
        ({
            let t = s.detach(mon, idx);
            let id = s.active_view(s.monitors[mon].output.id).unwrap().ids[idx];
            &&& t.coherent()
            &&& s.leads_to(t)
            &&& t.pool.member(id, s.acts.active)
            &&& forall|b: OutputId| !(#[trigger] t.shows_on(s.acts.active, b, id))
        }),
{
    let m = s.monitors[mon];
    let out = m.output.id;
    let act = s.acts.active;
    let v = s.active_view(out).unwrap();
    let id = v.ids[idx];
    let pos = if m.empty_workspace_above_first && idx == 0 {
        1
    } else {
        idx
    };
    crate::arrange::lemma_detach_leads(s, mon, idx);
    let s1 = s.detach_prepared(mon, idx);
    lemma_prepared_before(s, mon, idx);
    lemma_detach_prepared(s, mon, idx);
    lemma_view_is_ok(s, act, out);
    assert(v.ids.contains(id));
    assert(s.shows_on(act, out, id));
    assert(s.pool.member(id, act));
    let u = s1.active_view(out).unwrap();
    lemma_view_is_ok(s1, act, out);
    lemma_remove_wf(u, pos);
    let u2 = u.remove_at(pos);
    let s2 = s1.with_view(act, out, u2);
    lemma_with_view_coherent(s1, act, out, u2);
    lemma_view_after_set(s1.acts, act, out, u2);
    let w = s2.pool.get(id).unwrap();
    let s3 = LayoutModel { pool: s2.pool.unbind(id), ..s2 };
    lemma_put_keeps(s2, id, w.unbind());
    lemma_get(s2.pool, id);
    crate::coherence::lemma_get_put(s2.pool, id, w.unbind());
    let s4 = s3.settle(mon);
    lemma_settle(s3, mon);
    assert forall|b: OutputId| !(#[trigger] s4.shows_on(act, b, id)) by {
        if b != out {
            lemma_view_after_set_other(s1.acts, act, out, u2, act, b);
            assert(s1.view_of(act, b) == s.view_of(act, b));
            assert(!s.shows_on(act, b, id));
        }
    }
    assert(s1.monitors[mon].output == m.output);
    assert(s1.monitors[mon].empty_workspace_above_first == m.empty_workspace_above_first);
    lemma_clean_up_shrinks(s4, mon, id);
    assert(s.detach(mon, idx) == s4.clean_up(mon));
    assert forall|b: OutputId| !(#[trigger] s4.clean_up(mon).shows_on(act, b, id)) by {
        assert(!s4.shows_on(act, b, id));
    }
}

/// Taking a workspace out of a view uses up what readying the view does.
pub proof fn lemma_prepared_before(s: LayoutModel, mon: int, idx: int)
    requires
        0 <= mon < s.monitors.len(),
    ensures
        s.detach_prepared(mon, idx).before(s.detach(mon, idx)),
{
    let s1 = s.detach_prepared(mon, idx);
    let m = s1.monitors[mon];
    let pos = if m.empty_workspace_above_first && idx == 0 {
        1
    } else {
        idx
    };
    crate::bookends::lemma_mint_into_leads(s, mon, s.acts.active, match s.active_view(
        s.monitors[mon].output.id,
    ) {
        Some(v) => v.ids.len() as int,
        None => 0,
    });
    assert(s1.monitors.len() == s.monitors.len()) by {
        if let Some(v) = s.active_view(s.monitors[mon].output.id) {
            let t = if idx == v.ids.len() - 1 {
                s.add_workspace_bottom(mon)
            } else {
                s
            };
            crate::bookends::lemma_mint_into_leads(t, mon, t.acts.active, 0);
        }
    }
    if let Some(v) = s1.active_view(m.output.id) {
        if pos < v.ids.len() {
            let s2 = s1.with_view(s1.acts.active, m.output.id, v.remove_at(pos));
            crate::reclaim::lemma_with_view_leads(s1, s1.acts.active, m.output.id, v.remove_at(pos));
            let s3 = LayoutModel { pool: s2.pool.unbind(v.ids[pos]), ..s2 };
            assert(s1.leads_to(s3.settle(mon)));
            crate::reclaim::lemma_clean_up_leads(s3.settle(mon), mon);
        }
    }
}

/// Putting a workspace into the active view of a monitor keeps the layout coherent.
pub proof fn lemma_attach(s: LayoutModel, mon: int, id: WorkspaceId, idx: int, activate: bool)
    requires
        s.coherent(),
        0 <= mon < s.monitors.len(),
        0 <= idx,
        s.pool.member(id, s.acts.active),
        !s.shows_on(s.acts.active, s.monitors[mon].output.id, id),
        s.attach(mon, id, idx, activate).fits(),
    ensures
        s.attach(mon, id, idx, activate).coherent(),
        s.pool.busy(id) ==> match s.attach(mon, id, idx, activate).pool.get(id) {
            Some(w) => w.activities == s.pool.get(id).unwrap().activities,
            None => false,
        },
{
    let m = s.monitors[mon];
    let out = m.output.id;
    let act = s.acts.active;
    let w = s.pool.get(id).unwrap();
    let s1 = LayoutModel { pool: s.pool.bind(id, m.output), ..s };
    lemma_put_keeps(s, id, w.bind(m.output));
    lemma_get(s.pool, id);
    crate::coherence::lemma_get_put(s.pool, id, w.bind(m.output));
    assert(s1.pool.member(id, act));
    crate::arrange::lemma_attach_leads(s, mon, id, idx, activate);
    if let Some(v) = s1.active_view(out) {
        if v.ids.len() > 0 {
            lemma_view_is_ok(s1, act, out);
            let at = if idx >= v.ids.len() {
                v.ids.len() - 1
            } else {
                idx
            };
            let lead = at == 0 && m.empty_workspace_above_first;
            let s2 = if lead {
                s1.add_workspace_top(mon)
            } else {
                s1
            };
            let at2 = if lead {
                1
            } else {
                at
            };
            let top = s1.pool.next_id();
            let v2 = if lead {
                v.insert(0, top)
            } else {
                v
            };
            crate::bookends::lemma_mint_into_leads(s1, mon, act, 0);
            lemma_view_after_set(s1.acts, act, out, v2);
            assert(s2.active_view(out) == Some(v2));
            let v3 = v2.insert(at2, id);
            let v4 = if activate {
                v3.activate(at2)
            } else {
                v3
            };
            let s3 = s2.with_view(act, out, v4).settle(mon);
            crate::reclaim::lemma_clean_up_leads(s3, mon);
            assert(s.attach(mon, id, idx, activate) == s3.clean_up(mon));
            assert(s2.before(s3));
            assert(s1.pool.has(id));
            if lead {
                lemma_added(s1, mon, 0);
                crate::disconnecting::lemma_insert_contains(v.ids, 0, top, id);
                lemma_get(s1.pool, id);
                assert(id != top);
            }
            lemma_view_is_ok(s2, act, out);
            assert(s2.pool.member(id, act));
            assert(!v2.ids.contains(id));
            lemma_insert_wf(v2, at2, id);
            assert(v3.ids.contains(v3.ids[at2]));
            assert(view_ok(s2.pool, act, v4));
            lemma_with_view_coherent(s2, act, out, v4);
            lemma_settle(s2.with_view(act, out, v4), mon);
            lemma_clean_up(s3, mon);
            assert(s3.pool.get(id) == s1.pool.get(id));
            assert(s.pool.busy(id) ==> s3.pool.busy(id));
        }
    }
}

/// Moving the entries of a workspace in other activities along keeps the layout coherent.
pub proof fn lemma_rehome(
    s: LayoutModel,
    acts: Seq<ActivityId>,
    id: WorkspaceId,
    from: OutputId,
    to: OutputId,
)
    requires
        s.coherent(),
        forall|i: int| 0 <= i < acts.len() ==> s.pool.member(id, #[trigger] acts[i]),
    ensures
        s.rehome(acts, id, from, to).coherent(),
        s.rehome(acts, id, from, to).pool == s.pool,
    decreases acts.len(),
{
    if acts.len() > 0 {
        let rest = acts.drop_last();
        assert forall|i: int| 0 <= i < rest.len() implies s.pool.member(id, #[trigger] rest[i]) by {
            assert(rest[i] == acts[i]);
        }
        lemma_rehome(s, rest, id, from, to);
        let t = s.rehome(rest, id, from, to);
        let act = acts.last();
        assert(acts[acts.len() - 1] == act);
        if act != t.acts.active {
            let w = crate::reconcile::Stray { act, output: from, id };
            lemma_unshow(t, w);
            let r = t.unshow(w);
            if let Some(v) = r.view_of(act, to) {
                lemma_find_from(v.ids, equal_to(id), 0);
                if v.position_of(id) is None && v.ids.len() > 0 {
                    lemma_view_is_ok(r, act, to);
                    assert(!v.ids.contains(id));
                    let u = v.insert(v.ids.len() - 1, id);
                    lemma_insert_wf(v, v.ids.len() - 1, id);
                    assert(view_ok(r.pool, act, u));
                    lemma_with_view_coherent(r, act, to, u);
                }
            }
        }
    }
}

/// Moving a workspace to another output keeps the layout coherent.
pub proof fn law_moving_a_workspace_keeps_coherence(s: LayoutModel, mon: int, idx: int, mon2: int)
    requires
        s.coherent(),
        s.shown_once(),
        0 <= mon < s.monitors.len(),
        0 <= mon2 < s.monitors.len(),
        0 <= idx,
        s.transfer(mon, idx, mon2).fits(),
    ensures
        s.transfer(mon, idx, mon2).coherent(),
{
    let from = s.monitors[mon].output.id;
    let to = s.monitors[mon2].output.id;
    let act = s.acts.active;
    if let Some(v) = s.active_view(from) {
        if idx < v.ids.len() {
            let id = v.ids[idx];
            if mon == mon2 {
                if let Some(w) = s.pool.get(id) {
                    lemma_put_keeps(s, id, WorkspaceModel { output_id: Some(to), ..w });
                }
            } else {
                let activate = s.is_focused_place(mon, idx);
                let at = s.active_place(mon2).1 + 1;
                let s1 = s.detach(mon, idx);
                let s2 = LayoutModel { pool: s1.pool.set_output(id, Some(to)), ..s1 };
                let s3 = s2.attach(mon2, id, at, activate);
                assert(s3 == s.hand_over(mon, idx, mon2, at, id, activate));
                let acts = s3.activities_of(id);
                let s4 = s3.rehome(acts, id, from, to);
                crate::arrange::lemma_detach_leads(s, mon, idx);
                crate::arrange::lemma_attach_leads(s2, mon2, id, at, activate);
                crate::arrange::lemma_rehome_leads(s3, acts, id, from, to);
                lemma_detach(s, mon, idx);
                let w = s1.pool.get(id).unwrap();
                lemma_get(s1.pool, id);
                lemma_put_keeps(s1, id, WorkspaceModel { output_id: Some(to), ..w });
                crate::coherence::lemma_get_put(
                    s1.pool,
                    id,
                    WorkspaceModel { output_id: Some(to), ..w },
                );
                assert(s2.pool.member(id, act));
                assert(!s2.shows_on(act, to, id)) by {
                    assert(!s1.shows_on(act, to, id));
                }
                if let Some(v2) = s.active_view(to) {
                    lemma_find_from(v2.ids, equal_to(v2.active), 0);
                }
                lemma_attach(s2, mon2, id, at, activate);
                assert forall|i: int| 0 <= i < acts.len() implies s3.pool.member(
                    id,
                    #[trigger] acts[i],
                ) by {
                    assert(acts.contains(acts[i]));
                }
                lemma_rehome(s3, acts, id, from, to);
            }
        }
    }
}

} // verus!
