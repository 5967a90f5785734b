//! A strip that is rearranged has its workspaces in the order that was asked for.

use vstd::prelude::*;

use crate::coherence::{lemma_view_is_ok, view_ok};
use crate::cores::{kin, lemma_filter_filter};
use crate::declaring::lemma_clean_up_exact;
use crate::ids::{ActivityId, OutputId, WindowId, WorkspaceId};
use crate::keeping_views::lemma_filter;
use crate::layout::LayoutModel;
use crate::persisting::{lemma_mended_view, lemma_mended_work};
use crate::tallying::{count_on, lemma_mended_places, lemma_work_places};
use crate::transfer::{lemma_view_after_set, lemma_view_after_set_other};
use crate::view::ViewModel;

verus! {

impl LayoutModel {
    /// Activity `a` shows no workspace on two outputs.
    pub open spec fn once_in(self, a: ActivityId) -> bool {
        forall|o1: OutputId, o2: OutputId, x: WorkspaceId|
            o1 != o2 && #[trigger] self.shows_on(a, o1, x) ==> !(#[trigger] self.shows_on(
                a,
                o2,
                x,
            ))
    }
}

/// Mending leaves the order of the workspaces that `q` picks in a view, if those that it picks are in
/// use or shown there.
pub proof fn lemma_mended_order(
    s: LayoutModel,
    r: LayoutModel,
    a: ActivityId,
    o: OutputId,
    q: spec_fn(WorkspaceId) -> bool,
)
    requires
        s.whole(),
        s.monitors.len() > 0,
        r.coherent(),
        r.once_in(a),
        r.mended().fits(),
        r.mended().whole(),
        s.monitors.len() == r.monitors.len(),
        forall|i: int|
            0 <= i < s.monitors.len() ==> (#[trigger] s.monitors[i]).output == r.monitors[i].output,
        forall|x: WorkspaceId| #[trigger]
            s.pool.busy(x) ==> r.pool.busy(x) && s.pool.member(x, a) == r.pool.member(x, a),
        s.view_of(a, o) is Some,
        r.view_of(a, o) is Some,
        forall|x: WorkspaceId| #[trigger]
            q(x) ==> s.pool.busy(x) || r.view_of(a, o).unwrap().ids.contains(x),
        forall|p: OutputId, x: WorkspaceId| #[trigger]
            s.shows_on(a, p, x) && q(x) ==> r.view_of(a, o).unwrap().ids.contains(x) || (p != o
                && r.shows_on(a, p, x)),
    ensures
        match r.mended().view_of(a, o) {
            Some(u) => {
                &&& u.ids.filter(q) == r.view_of(a, o).unwrap().ids.filter(q)
                &&& u.active == r.view_of(a, o).unwrap().active
            },
            None => false,
        },
{
    let t = r.mended();
    let v = r.view_of(a, o).unwrap();
    let g = |x: WorkspaceId| v.ids.contains(x);
    assert(s.monitor_pos(o) is Some);
    crate::wholeness::lemma_same_monitor(s, r, o);
    assert forall|p: OutputId, z: WorkspaceId| p != o && #[trigger] r.shows_on(
        a,
        p,
        z,
    ) implies !v.ids.contains(z) by {
        assert(!r.shows_on(a, o, z));
    }
    lemma_mended_view(r, a, o);
    lemma_mended_work(r);
    let u = t.view_of(a, o).unwrap();
    lemma_view_is_ok(t, a, o);
    assert forall|i: int| 0 <= i < u.ids.len() && #[trigger] q(u.ids[i]) implies g(u.ids[i]) by {
        let x = u.ids[i];
        assert(u.ids.contains(x));
        assert(t.shows_on(a, o, x));
        assert(t.pool.member(x, a));
        if s.pool.busy(x) && !v.ids.contains(x) {
            assert(r.pool.busy(x));
            assert(s.pool.member(x, a));
            let p = choose|p: OutputId| s.shows_on(a, p, x);
            assert(r.shows_on(a, p, x));
            assert(s.monitor_pos(p) is Some);
            crate::wholeness::lemma_same_monitor(s, r, p);
            assert forall|p2: OutputId, z: WorkspaceId| p2 != p && #[trigger] r.shows_on(
                a,
                p2,
                z,
            ) implies !r.view_of(a, p).unwrap().ids.contains(z) by {
                assert(!r.shows_on(a, p, z));
            }
            lemma_mended_view(r, a, p);
            assert(t.shows_on(a, p, x));
        }
    }
    lemma_filter_filter(u.ids, g, q);
}

/// A strip that was replaced by one with the same workspaces, and got its bookends back, has those
/// in use in the order of the new one, and with them the active one, which stays active.
pub proof fn lemma_rearranged(
    s: LayoutModel,
    mon: int,
    w: ViewModel,
    low: int,
    high: int,
    b: WorkspaceId,
    q: spec_fn(WorkspaceId) -> bool,
)
    requires
        s.coherent(),
        s.shown_once(),
        0 <= mon < s.monitors.len(),
        s.active_view(s.monitors[mon].output.id) is Some,
        w.wf(),
        forall|x: WorkspaceId| #[trigger]
            w.ids.contains(x) <==> s.active_view(
                s.monitors[mon].output.id,
            ).unwrap().ids.contains(x),
        w.ids.contains(b),
        s.pool.busy(b),
        forall|x: WorkspaceId| #[trigger] q(x) ==> s.pool.busy(x) || x == w.active,
        s.rearrange(mon, w, low, high).fits(),
    ensures
        ({
            let r = s.rearrange(mon, w, low, high);
            let act = s.acts.active;
            let out = s.monitors[mon].output.id;
            &&& r.coherent()
            &&& r.shown_once()
            &&& r.focused == s.focused
            &&& r.acts.active == act
            &&& match r.view_of(act, out) {
                Some(u) => u.ids.filter(q) == w.ids.filter(q) && u.active == w.active
                    && u.ids.contains(w.active),
                None => false,
            }
            &&& forall|a: ActivityId, o: OutputId|
                a != act || o != out ==> #[trigger] r.view_of(a, o) == s.view_of(a, o)
        }),
{
    let m = s.monitors[mon];
    let out = m.output.id;
    let act = s.acts.active;
    let v = s.active_view(out).unwrap();
    let r = s.rearrange(mon, w, low, high);
    let n = w.ids.len() as int;
    let s1 = s.with_view(act, out, w);
    lemma_view_is_ok(s, act, out);
    assert(view_ok(s.pool, act, w)) by {
        assert forall|x: WorkspaceId| #[trigger] w.ids.contains(x) implies s.pool.member(x, act) by {
            assert(v.ids.contains(x));
        }
    }
    crate::coherence::lemma_with_view_coherent(s, act, out, w);
    lemma_view_after_set(s.acts, act, out, w);
    assert forall|a: ActivityId, o: OutputId| a != act || o != out implies #[trigger] s1.view_of(
        a,
        o,
    ) == s.view_of(a, o) by {
        lemma_view_after_set_other(s.acts, act, out, w, a, o);
    }
    assert forall|a: ActivityId, o: OutputId, x: WorkspaceId| #[trigger] s1.shows_on(
        a,
        o,
        x,
    ) implies s.shows_on(a, o, x) by {
        if a != act || o != out {
            assert(s1.view_of(a, o) == s.view_of(a, o));
        }
    }
    crate::belonging::lemma_shrunk_once(s, s1);
    let deep = high == n - 1;
    let s2 = if deep {
        s1.add_workspace_bottom(mon)
    } else {
        s1
    };
    let bottom = s1.pool.next_id();
    let w2 = if deep {
        w.insert(n, bottom)
    } else {
        w
    };
    let lead = m.empty_workspace_above_first && low == 0;
    let s3 = if lead {
        s2.add_workspace_top(mon)
    } else {
        s2
    };
    let top = s2.pool.next_id();
    let w3 = if lead {
        w2.insert(0, top)
    } else {
        w2
    };
    let s4 = s3.settle(mon);
    assert(r == s4.clean_up(mon));
    crate::reclaim::lemma_clean_up_leads(s4, mon);
    crate::bookends::lemma_mint_into_leads(s1, mon, act, n);
    crate::bookends::lemma_mint_into_leads(s2, mon, act, 0);
    assert(s2.before(s4));
    if deep {
        crate::tending::lemma_added(s1, mon, n);
        crate::belonging::lemma_mint_into_once(s1, mon, act, n);
        crate::coherence::lemma_get(s1.pool, bottom);
        assert(!s.pool.has(bottom));
        assert(!q(bottom)) by {
            assert(w.ids.contains(w.active));
            assert(s.pool.member(w.active, act));
        }
        crate::cores::lemma_filter_insert(w.ids, n, bottom, q);
        crate::view::lemma_insert_wf(w, n, bottom);
    }
    assert(s2.active_view(out) == Some(w2));
    if lead {
        crate::tending::lemma_added(s2, mon, 0);
        crate::belonging::lemma_mint_into_once(s2, mon, act, 0);
        crate::coherence::lemma_get(s2.pool, top);
        assert(!s.pool.has(top)) by {
            if s.pool.has(top) {
                assert(s1.pool.has(top));
                assert(s2.pool.has(top));
            }
        }
        assert(!q(top)) by {
            assert(w.ids.contains(w.active));
            assert(s.pool.member(w.active, act));
        }
        crate::cores::lemma_filter_insert(w2.ids, 0, top, q);
        lemma_view_is_ok(s2, act, out);
        assert(!w2.ids.contains(top));
        crate::view::lemma_insert_wf(w2, 0, top);
    }
    assert(s4.view_of(act, out) == Some(w3));
    assert forall|x: WorkspaceId| #[trigger] s.pool.has(x) implies s4.pool.get(x) == s.pool.get(x) by {
        assert(s1.pool.has(x));
        assert(s2.pool.has(x));
    }
    assert(s.pool.has(b));
    assert(s4.pool.busy(b));
    assert(w3.ids.contains(b));
    assert(s4.shows_on(act, out, b));
    lemma_clean_up_exact(s4, mon, b);
    let k = crate::reclaim::kept(s4.pool, w3, m.empty_workspace_above_first);
    lemma_filter(w3.ids, k);
    assert forall|i: int| 0 <= i < w3.ids.len() && #[trigger] q(w3.ids[i]) implies k(w3.ids[i]) by {
        if s.pool.busy(w3.ids[i]) {
            assert(s.pool.has(w3.ids[i]));
        }
    }
    lemma_filter_filter(w3.ids, k, q);
    assert(w3.ids.contains(w.active));
    assert forall|b2: OutputId, x: WorkspaceId| b2 != out && #[trigger] s4.shows_on(
        act,
        b2,
        x,
    ) implies !s4.shows_on(act, out, x) by {
        assert(s3.shows_on(act, b2, x));
        assert(!s3.shows_on(act, out, x));
    }
    crate::connecting::lemma_clean_up_views(s4, mon);
    crate::tending::lemma_clean_up_shrinks(s4, mon, b);
    crate::belonging::lemma_same_once(s3, s4);
    crate::belonging::lemma_shrunk_once(s4, r);
    assert forall|a: ActivityId, o: OutputId| a != act || o != out implies #[trigger] r.view_of(a, o)
        == s.view_of(a, o) by {
        lemma_view_after_set_other(s1.acts, act, out, w2, a, o);
        lemma_view_after_set_other(s2.acts, act, out, w3, a, o);
        assert(s1.view_of(a, o) == s.view_of(a, o));
        assert(s4.view_of(a, o) == s.view_of(a, o));
    }
}

/// What a rearranged strip looks like when the operation is over.
pub proof fn lemma_arrayed(
    s: LayoutModel,
    mon: int,
    w: ViewModel,
    low: int,
    high: int,
    b: WorkspaceId,
    q: spec_fn(WorkspaceId) -> bool,
)
    requires
        s.whole(),
        0 <= mon < s.monitors.len(),
        s.active_view(s.monitors[mon].output.id) is Some,
        w.wf(),
        forall|x: WorkspaceId| #[trigger]
            w.ids.contains(x) <==> s.active_view(
                s.monitors[mon].output.id,
            ).unwrap().ids.contains(x),
        w.ids.contains(b),
        s.pool.busy(b),
        forall|x: WorkspaceId| #[trigger] q(x) ==> s.pool.busy(x) || x == w.active,
        s.rearrange(mon, w, low, high).mended().fits(),
        s.rearrange(mon, w, low, high).mended().whole(),
    ensures
        ({
            let t = s.rearrange(mon, w, low, high).mended();
            let act = s.acts.active;
            let out = s.monitors[mon].output.id;
            &&& match t.view_of(act, out) {
                Some(u) => u.ids.filter(q) == w.ids.filter(q) && u.active == w.active,
                None => false,
            }
            &&& forall|x: WorkspaceId, u: WindowId| #[trigger]
                count_on(t.pool, x, u) == count_on(s.pool, x, u)
            &&& t.acts.active == act
            &&& t.focused == s.focused
        }),
{
    let r = s.rearrange(mon, w, low, high);
    let t = r.mended();
    let act = s.acts.active;
    let d = s.monitors[mon].output;
    let out = d.id;
    let v = s.active_view(out).unwrap();
    crate::mending::lemma_mended_leads(r);
    lemma_view_is_ok(s, act, out);
    assert(view_ok(s.pool, act, w)) by {
        assert forall|x: WorkspaceId| #[trigger] w.ids.contains(x) implies s.pool.member(x, act) by {
            assert(v.ids.contains(x));
        }
    }
    crate::reordering::lemma_rearrange(s, mon, w, low, high, d);
    crate::lasting::lemma_rearrange_level(s, mon, w, low, high);
    lemma_rearranged(s, mon, w, low, high, b, q);
    let u = r.view_of(act, out).unwrap();
    assert forall|x: WorkspaceId| #[trigger] v.ids.contains(x) && q(x) implies u.ids.contains(x) by {
        assert(w.ids.contains(x));
        lemma_filter(w.ids, q);
        lemma_filter(u.ids, q);
        assert(w.ids.filter(q).contains(x));
        assert(u.ids.filter(q).contains(x));
    }
    assert forall|x: WorkspaceId| #[trigger] s.pool.busy(x) implies r.pool.busy(x) && s.pool.member(
        x,
        act,
    ) == r.pool.member(x, act) by {
        assert(kin(s.pool.get(x).unwrap(), r.pool.get(x).unwrap()));
    }
    assert forall|p: OutputId, x: WorkspaceId| #[trigger] s.shows_on(act, p, x) && q(
        x,
    ) implies u.ids.contains(x) || (p != out && r.shows_on(act, p, x)) by {
        if p == out {
            assert(v.ids.contains(x));
        } else {
            assert(r.view_of(act, p) == s.view_of(act, p));
        }
    }
    lemma_mended_order(s, r, act, out, q);
    assert(t.focused == s.focused);
    lemma_work_places(s.pool, r.pool, d);
    lemma_mended_places(r);
    assert forall|x: WorkspaceId, k: WindowId| #[trigger] count_on(t.pool, x, k) == count_on(
        s.pool,
        x,
        k,
    ) by {
        assert(count_on(t.pool, x, k) == count_on(r.pool, x, k));
    }
}

/// Moving the active workspace, at place `at` of the strip, up or down exchanges it with the one
/// above or below it: the ones in use, and the active one, are then in that order. It stays active.
/// No window moves. At the end of the strip nothing happens.
pub proof fn law_workspace_moves_by_one(s: LayoutModel, at: int, up: bool)
    requires
        s.whole(),
        s.monitors.len() > 0,
        match s.view_of(s.acts.active, s.monitors[s.focused].output.id) {
            Some(v) => {
                &&& 0 <= at < v.ids.len()
                &&& v.ids[at] == v.active
                &&& exists|b: WorkspaceId| #[trigger] v.ids.contains(b) && s.pool.busy(b)
            },
            None => false,
        },
        (if up {
            s.raise(s.focused)
        } else {
            s.sink(s.focused)
        }).mended().fits(),
    ensures
        ({
            let t = (if up {
                s.raise(s.focused)
            } else {
                s.sink(s.focused)
            }).mended();
            let act = s.acts.active;
            let out = s.monitors[s.focused].output.id;
            let v = s.view_of(act, out).unwrap();
            let q = |x: WorkspaceId| s.pool.busy(x) || x == v.active;
            let to = if up {
                at - 1
            } else {
                at + 1
            };
            if 0 <= to < v.ids.len() {
                &&& match t.view_of(act, out) {
                    Some(u) => u.active == v.active && u.ids.filter(q) == v.ids.update(
                        at,
                        v.ids[to],
                    ).update(to, v.ids[at]).filter(q),
                    None => false,
                }
                &&& forall|x: WorkspaceId, u: WindowId| #[trigger]
                    count_on(t.pool, x, u) == count_on(s.pool, x, u)
                &&& t.acts.active == act
                &&& t.focused == s.focused
            } else {
                t == s
            }
        }),
{
    let act = s.acts.active;
    let mon = s.focused;
    let out = s.monitors[mon].output.id;
    let v = s.view_of(act, out).unwrap();
    let q = |x: WorkspaceId| s.pool.busy(x) || x == v.active;
    let to = if up {
        at - 1
    } else {
        at + 1
    };
    let b = choose|b: WorkspaceId| #[trigger] v.ids.contains(b) && s.pool.busy(b);
    lemma_view_is_ok(s, act, out);
    crate::turning::lemma_active_at(s, at);
    crate::wholeness::law_mending_is_idle(s);
    crate::lasting::law_reordering_keeps_whole(s);
    if 0 <= to < v.ids.len() {
        let w = v.swap(at, to);
        crate::view::lemma_swap_wf(v, at, to);
        lemma_swap_contains(v.ids, at, to);
        if up {
            lemma_arrayed(s, mon, w, to, at, b, q);
        } else {
            lemma_arrayed(s, mon, w, at, to, b, q);
        }
    }
}

/// Exchanging two elements loses none.
pub proof fn lemma_swap_contains(ids: Seq<WorkspaceId>, i: int, j: int)
    requires
        0 <= i < ids.len(),
        0 <= j < ids.len(),
    ensures
        forall|x: WorkspaceId| #[trigger]
            ids.update(i, ids[j]).update(j, ids[i]).contains(x) <==> ids.contains(x),
{
    let w = ids.update(i, ids[j]).update(j, ids[i]);
    assert forall|x: WorkspaceId| #[trigger] w.contains(x) <==> ids.contains(x) by {
        if w.contains(x) {
            let k = choose|k: int| 0 <= k < w.len() && w[k] == x;
            assert(ids[if k == j {
                i
            } else if k == i {
                j
            } else {
                k
            }] == x);
        }
        if ids.contains(x) {
            let k = choose|k: int| 0 <= k < ids.len() && ids[k] == x;
            assert(w[if k == j {
                i
            } else if k == i {
                j
            } else {
                k
            }] == x);
        }
    }
}

/// Moving one element elsewhere loses none.
pub proof fn lemma_move_contains(ids: Seq<WorkspaceId>, from: int, to: int)
    requires
        0 <= from < ids.len(),
        0 <= to < ids.len(),
    ensures
        forall|x: WorkspaceId| #[trigger]
            ids.remove(from).insert(to, ids[from]).contains(x) <==> ids.contains(x),
{
    let g = ids.remove(from);
    let w = g.insert(to, ids[from]);
    assert forall|x: WorkspaceId| #[trigger] w.contains(x) <==> ids.contains(x) by {
        crate::disconnecting::lemma_insert_contains(g, to, ids[from], x);
        if g.contains(x) {
            let k = choose|k: int| 0 <= k < g.len() && g[k] == x;
            assert(ids[if k < from {
                k
            } else {
                k + 1
            }] == x);
        }
        if ids.contains(x) && x != ids[from] {
            let k = choose|k: int| 0 <= k < ids.len() && ids[k] == x;
            assert(g[if k < from {
                k
            } else {
                k - 1
            }] == x);
        }
    }
}

/// Moving the workspace at place `from` of the strip of monitor `mon` to place `to` takes it out and
/// puts it in there, or at the end if the strip is shorter: the ones in use, and the active one, are
/// then in that order. The active one stays active. No window moves. With no reference the workspace
/// is the active one of the focused monitor, and with no output it is one of that monitor.
pub proof fn law_workspace_moves_to_the_place(
    s: LayoutModel,
    r: Option<(Option<OutputId>, int)>,
    to: int,
    mon: int,
    from: int,
)
    requires
        s.whole(),
        0 <= to,
        0 <= from,
        0 <= mon < s.monitors.len(),
        match r {
            Some((Some(out), idx)) => out == s.monitors[mon].output.id && idx == from,
            Some((None, idx)) => mon == s.focused && idx == from,
            None => mon == s.focused && match s.view_of(
                s.acts.active,
                s.monitors[mon].output.id,
            ) {
                Some(v) => from < v.ids.len() && v.ids[from] == v.active,
                None => false,
            },
        },
        exists|b: WorkspaceId| #[trigger]
            s.shows_on(s.acts.active, s.monitors[mon].output.id, b) && s.pool.busy(b),
        s.move_workspace_to_idx(r, to).mended().fits(),
    ensures
        ({
            let t = s.move_workspace_to_idx(r, to).mended();
            let act = s.acts.active;
            let out = s.monitors[mon].output.id;
            let v = s.view_of(act, out).unwrap();
            let q = |x: WorkspaceId| s.pool.busy(x) || x == v.active;
            let at = if to < v.ids.len() {
                to
            } else {
                v.ids.len() - 1
            };
            if from < v.ids.len() && from != at {
                &&& match t.view_of(act, out) {
                    Some(u) => u.active == v.active && u.ids.filter(q) == v.ids.remove(
                        from,
                    ).insert(at, v.ids[from]).filter(q),
                    None => false,
                }
                &&& forall|x: WorkspaceId, u: WindowId| #[trigger]
                    count_on(t.pool, x, u) == count_on(s.pool, x, u)
                &&& t.acts.active == act
                &&& t.focused == s.focused
            } else {
                t == s
            }
        }),
{
    let act = s.acts.active;
    let out = s.monitors[mon].output.id;
    let b = choose|b: WorkspaceId| #[trigger] s.shows_on(act, out, b) && s.pool.busy(b);
    let v = s.view_of(act, out).unwrap();
    let n = v.ids.len() as int;
    let q = |x: WorkspaceId| s.pool.busy(x) || x == v.active;
    let at = if to < n {
        to
    } else {
        n - 1
    };
    lemma_view_is_ok(s, act, out);
    crate::wholeness::law_mending_is_idle(s);
    crate::lasting::law_moving_to_a_place_keeps_whole(s, r, to);
    assert(s.reorder_place(r) == Some((mon, from))) by {
        match r {
            Some((Some(o), _)) => {
                crate::search::lemma_find_from(s.monitors, crate::layout::on_output(o), 0);
                assert(crate::layout::on_output(o)(s.monitors[mon]));
                let k = s.monitor_pos(o).unwrap();
                assert(crate::layout::on_output(o)(s.monitors[k]));
                if k < mon {
                    assert(crate::cores::apart(s.monitors[k].output, s.monitors[mon].output));
                }
            },
            Some((None, _)) => {},
            None => {
                crate::turning::lemma_active_at(s, from);
            },
        }
    }
    if from < n && from != at {
        let w = v.move_within(from, at);
        crate::view::lemma_move_wf(v, from, at);
        lemma_move_contains(v.ids, from, at);
        if from < at {
            lemma_arrayed(s, mon, w, from, at, b, q);
        } else {
            lemma_arrayed(s, mon, w, at, from, b, q);
        }
    }
}

} // verus!
