//! A window that is dropped is on the workspace that it is dropped on.

use vstd::prelude::*;

use crate::aiming::lemma_place_views;
use crate::coherence::{lemma_get, lemma_get_put, lemma_view_is_ok};
use crate::ids::{ActivityId, OutputId, WindowId, WorkspaceId};
use crate::interactive::{DropPlace, InsertWorkspace};
use crate::layout::{InteractiveMoveData, InteractiveMoveState, LayoutModel};
use crate::moves::alone;
use crate::persisting::{lemma_mended_view, lemma_mended_work};
use crate::search::{equal_to, lemma_find_from};
use crate::tallying::{
    count_on, lemma_add_counts, lemma_idle_counts, lemma_mended_places, lemma_put_counts, one_put,
};
use crate::transfer::{lemma_view_after_set, lemma_view_after_set_other};
use crate::windows::{takes_focus, ActivateWindow};
use crate::workspace::{Tile, WorkspaceModel};

verus! {

/// What letting a window down on a workspace of a monitor does.
pub proof fn lemma_landed(s: LayoutModel, mon: int, idx: int, tile: Tile, column: Option<WindowId>)
    requires
        s.coherent(),
        s.shown_once(),
        0 <= mon < s.monitors.len(),
        0 <= idx < s.view_len(mon),
        s.land(mon, idx, tile, column).fits(),
    ensures
        ({
            let r = s.land(mon, idx, tile, column);
            let act = s.acts.active;
            let out = s.monitors[mon].output.id;
            let v = s.active_view(out).unwrap();
            let y = v.ids[idx];
            let w = tile.window.id;
            &&& r.coherent()
            &&& r.shown_once()
            &&& s.leads_to(r)
            &&& r.moving == s.moving
            &&& one_put(s.pool, r.pool, w, y)
            &&& r.pool.busy(y)
            &&& r.pool.get(y).unwrap().active == Some(w)
            &&& r.pool.get(y).unwrap().tiles == s.pool.get(y).unwrap().tiles.push(
                Tile {
                    column: match column {
                        Some(leader) => leader,
                        None => w,
                    },
                    ..tile
                },
            )
            &&& match r.view_of(act, out) {
                Some(u) => {
                    &&& u.active == if s.overview_open {
                        v.active
                    } else {
                        y
                    }
                    &&& forall|z: WorkspaceId| #[trigger] v.ids.contains(z) ==> u.ids.contains(z)
                    &&& idx + 1 < v.ids.len() && !(s.monitors[mon].empty_workspace_above_first && idx
                        == 0) ==> u.ids == v.ids
                },
                None => false,
            }
            &&& forall|a: ActivityId, o: OutputId|
                a != act || o != out ==> #[trigger] r.view_of(a, o) == s.view_of(a, o)
        }),
{
    let r = s.land(mon, idx, tile, column);
    let act = s.acts.active;
    let out = s.monitors[mon].output.id;
    let v = s.active_view(out).unwrap();
    let y = v.ids[idx];
    let w = tile.window.id;
    let d = s.pool.get(y).unwrap();
    lemma_view_is_ok(s, act, out);
    assert(v.ids.contains(y));
    assert(s.pool.member(y, act));
    lemma_get(s.pool, y);
    crate::upholding::lemma_land(s, mon, idx, tile, column);
    match column {
        Some(leader) => {
            let t = Tile { column: leader, ..tile };
            let u = d.add_tile(t, true);
            let s1 = LayoutModel { pool: s.pool.add_tile(y, t, true), ..s };
            lemma_get_put(s.pool, y, u);
            lemma_add_counts(s.pool, y, t, true);
            let x = WorkspaceModel { output_id: Some(out), ..u };
            let s2 = s1.claim(mon, y);
            lemma_get(s1.pool, y);
            lemma_get_put(s1.pool, y, x);
            lemma_put_counts(s1.pool, y, x);
            assert(s2.pool == s1.pool.put(y, x));
            assert(r.pool == s2.pool);
            assert forall|z: WorkspaceId, k: WindowId| #[trigger] count_on(r.pool, z, k) == count_on(
                s.pool,
                z,
                k,
            ) + if z == y && k == w {
                1int
            } else {
                0
            } by {
                assert(count_on(r.pool, z, k) == count_on(s1.pool, z, k));
            }
            assert(s2.active_view(out) == Some(v));
            lemma_view_after_set(s2.acts, act, out, v.activate(idx));
            crate::windows::lemma_focus_on_leads(s2, mon, idx);
            assert forall|a: ActivityId, o: OutputId| a != act || o != out implies #[trigger] r.view_of(
                a,
                o,
            ) == s.view_of(a, o) by {
                lemma_view_after_set_other(s2.acts, act, out, v.activate(idx), a, o);
            }
            assert forall|a: ActivityId, o: OutputId, z: WorkspaceId| #[trigger] r.shows_on(
                a,
                o,
                z,
            ) implies s.shows_on(a, o, z) by {
                if a != act || o != out {
                    assert(r.view_of(a, o) == s.view_of(a, o));
                }
            }
            crate::belonging::lemma_shrunk_once(s, r);
        },
        None => {
            let t = alone(tile);
            let allow = !s.overview_open;
            let focus = takes_focus(d, ActivateWindow::Yes, None);
            assert(focus);
            assert(r == s.place(mon, idx, t, true, allow));
            crate::placing::law_placing_claims(s, mon, idx, t, true, allow);
            lemma_place_views(s, mon, idx, t, true, allow);
            crate::windows::lemma_place_leads(s, mon, idx, t, true, allow);
            assert(d.tiles.push(t).drop_last() =~= d.tiles);
            assert forall|z: WorkspaceId, k: WindowId| #[trigger] count_on(r.pool, z, k) == count_on(
                s.pool,
                z,
                k,
            ) + if z == y && k == w {
                1int
            } else {
                0
            } by {
                if z != y {
                    if s.pool.has(z) {
                        assert(r.pool.get(z) == s.pool.get(z));
                    } else {
                        if r.pool.busy(z) {
                            assert(s.pool.busy(z));
                        }
                        lemma_idle_counts(r.pool, z, k);
                    }
                }
            }
            crate::ordering::lemma_land_load(s, mon, idx, tile, column, w);
        },
    }
}

/// What is left of it when the operation is over.
pub proof fn lemma_landed_settled(
    s: LayoutModel,
    r: LayoutModel,
    w: WindowId,
    y: WorkspaceId,
    o: OutputId,
)
    requires
        r.coherent(),
        r.shown_once(),
        r.monitors.len() > 0,
        r.monitor_pos(o) is Some,
        r.view_of(s.acts.active, o) is Some,
        r.mended().fits(),
        one_put(s.pool, r.pool, w, y),
        r.pool.busy(y),
    ensures
        one_put(s.pool, r.mended().pool, w, y),
        r.mended().pool.busy(y),
        r.mended().pool.get(y).unwrap().active == r.pool.get(y).unwrap().active,
        r.mended().pool.get(y).unwrap().tiles == r.pool.get(y).unwrap().tiles,
        match r.mended().view_of(s.acts.active, o) {
            Some(u) => {
                let v = r.view_of(s.acts.active, o).unwrap();
                &&& u.active == v.active
                &&& u.ids.filter(|x: WorkspaceId| v.ids.contains(x)) == v.ids
                &&& forall|x: WorkspaceId| #[trigger] v.ids.contains(x) ==> u.ids.contains(x)
            },
            None => false,
        },
{
    let t = r.mended();
    let act = s.acts.active;
    lemma_mended_work(r);
    lemma_mended_places(r);
    assert(t.pool.busy(y));
    assert forall|z: WorkspaceId, k: WindowId| #[trigger] count_on(t.pool, z, k) == count_on(
        s.pool,
        z,
        k,
    ) + if z == y && k == w {
        1int
    } else {
        0
    } by {
        assert(count_on(t.pool, z, k) == count_on(r.pool, z, k));
    }
    assert forall|p: OutputId, z: WorkspaceId| p != o && #[trigger] r.shows_on(
        act,
        p,
        z,
    ) implies !r.view_of(act, o).unwrap().ids.contains(z) by {
        assert(!r.shows_on(act, o, z));
    }
    lemma_mended_view(r, act, o);
}

/// What letting go of a dragged window leaves.
pub proof fn lemma_let_go(s: LayoutModel, d: InteractiveMoveData)
    requires
        s.whole(),
    ensures
        ({
            let a = s.let_go(d);
            &&& a.coherent()
            &&& a.shown_once()
            &&& a.moving is None
            &&& a.acts == s.acts
            &&& a.parked == s.parked
            &&& a.focused == s.focused
            &&& a.primary == s.primary
            &&& a.overview_open == s.overview_open
            &&& a.monitors.len() == s.monitors.len()
            &&& forall|i: int|
                0 <= i < s.monitors.len() ==> (#[trigger] a.monitors[i]).output
                    == s.monitors[i].output && a.monitors[i].empty_workspace_above_first
                    == s.monitors[i].empty_workspace_above_first
            &&& forall|x: WorkspaceId| #[trigger] a.pool.has(x) == s.pool.has(x)
            &&& forall|x: WorkspaceId| #[trigger]
                s.pool.has(x) ==> a.pool.get(x).unwrap().tiles == s.pool.get(x).unwrap().tiles
            &&& forall|x: WorkspaceId, w: WindowId| #[trigger]
                count_on(a.pool, x, w) == count_on(s.pool, x, w)
            &&& a.pool.next == s.pool.next
        }),
{
    let a = s.let_go(d);
    crate::placing::lemma_lock_all(s.pool, false);
    assert(crate::coherence::alike(s.pool, s.pool));
    crate::upholding::lemma_frame(s, a);
    crate::belonging::lemma_same_once(s, a);
    assert forall|x: WorkspaceId| #[trigger] a.pool.has(x) == s.pool.has(x) by {
        assert(s.pool.lock_all(false).get(x) == s.pool.lock_all(false).get(x));
    }
}

/// A dragged window that is dropped on workspace `id`, which the active activity shows on the output
/// under the pointer, is on that workspace from then on, in the column that was pointed at or in one
/// of its own, and is the active window there. No other window moves, and nothing is dragged any
/// more. The workspace becomes the active one there, unless the overview is open.
pub proof fn law_dropped_window_lands_on_the_workspace(
    s: LayoutModel,
    d: InteractiveMoveData,
    p: DropPlace,
    id: WorkspaceId,
)
    requires
        s.whole(),
        s.moving == Some(InteractiveMoveState::Moving(d)),
        p.workspace == InsertWorkspace::Existing(id),
        s.shows_on(s.acts.active, d.output.id, id),
        s.end_move(d.tile.window.id, p).mended().fits(),
    ensures
        ({
            let w = d.tile.window.id;
            let t = s.end_move(w, p).mended();
            let act = s.acts.active;
            let out = d.output.id;
            &&& t.moving is None
            &&& t.acts.active == act
            &&& t.focused == s.focused
            &&& one_put(s.pool, t.pool, w, id)
            &&& t.pool.get(id).unwrap().active == Some(w)
            &&& t.pool.get(id).unwrap().tiles.last().column == match p.column {
                Some(leader) => if d.tile.floating {
                    w
                } else {
                    leader
                },
                None => w,
            }
            &&& t.shows_on(act, out, id)
            &&& t.view_of(act, out).unwrap().active == if s.overview_open {
                s.view_of(act, out).unwrap().active
            } else {
                id
            }
        }),
{
    let w = d.tile.window.id;
    let act = s.acts.active;
    let out = d.output.id;
    let r = s.end_move(w, p);
    let t = r.mended();
    let a = s.let_go(d);
    lemma_let_go(s, d);
    crate::mending::lemma_mended_leads(r);
    assert(s.monitor_pos(out) is Some);
    crate::wholeness::lemma_same_monitor(s, a, out);
    lemma_find_from(a.monitors, crate::layout::on_output(out), 0);
    let mon = a.monitor_pos(out).unwrap();
    let v = s.view_of(act, out).unwrap();
    assert(a.active_view(out) == Some(v));
    lemma_find_from(v.ids, equal_to(id), 0);
    if v.position_of(id) is None {
        let k = choose|k: int| 0 <= k < v.ids.len() && v.ids[k] == id;
        assert(equal_to(id)(v.ids[k]));
    }
    let idx = v.position_of(id).unwrap();
    assert(v.ids[idx] == id);
    let column = if d.tile.floating {
        None
    } else {
        p.column
    };
    assert(r == a.land(mon, idx, d.tile, column));
    lemma_landed(a, mon, idx, d.tile, column);
    crate::wholeness::lemma_same_monitor(a, r, out);
    assert forall|z: WorkspaceId, k: WindowId| #[trigger] count_on(r.pool, z, k) == count_on(
        s.pool,
        z,
        k,
    ) + if z == id && k == w {
        1int
    } else {
        0
    } by {
        assert(count_on(a.pool, z, k) == count_on(s.pool, z, k));
    }
    lemma_landed_settled(s, r, w, id, out);
    assert(v.ids.contains(id));
    assert(t.shows_on(act, out, id));
}

/// A dragged window that is dropped between workspaces of the output under the pointer is on a new
/// workspace at that place from then on. Where the strip has its empty workspace already, above or
/// below all others, it is on that one. No other window moves, and nothing is dragged any more.
pub proof fn law_dropped_window_opens_a_workspace(
    s: LayoutModel,
    d: InteractiveMoveData,
    p: DropPlace,
    at: usize,
    mon: int,
) -> (y: WorkspaceId)
    requires
        s.whole(),
        s.moving == Some(InteractiveMoveState::Moving(d)),
        p.workspace == InsertWorkspace::NewAt(at),
        0 <= mon < s.monitors.len(),
        s.monitors[mon].output.id == d.output.id,
        s.end_move(d.tile.window.id, p).mended().fits(),
    ensures
        ({
            let w = d.tile.window.id;
            let t = s.end_move(w, p).mended();
            let act = s.acts.active;
            let out = d.output.id;
            let v = s.view_of(act, out).unwrap();
            let leading = s.monitors[mon].empty_workspace_above_first;
            &&& t.moving is None
            &&& t.acts.active == act
            &&& t.focused == s.focused
            &&& one_put(s.pool, t.pool, w, y)
            &&& t.pool.get(y).unwrap().active == Some(w)
            &&& t.pool.get(y).unwrap().tiles.last().column == w
            &&& t.shows_on(act, out, y)
            &&& t.view_of(act, out).unwrap().active == if s.overview_open {
                v.active
            } else {
                y
            }
            &&& if leading && at == 0 {
                y == v.ids[0]
            } else if at + 1 >= v.ids.len() {
                y == v.ids.last()
            } else {
                &&& !s.pool.has(y)
                &&& t.view_of(act, out).unwrap().ids.filter(
                    |z: WorkspaceId| z == y || v.ids.contains(z),
                ) == v.ids.insert(at as int, y)
            }
        }),
{
    let w = d.tile.window.id;
    let act = s.acts.active;
    let out = d.output.id;
    let r = s.end_move(w, p);
    let t = r.mended();
    let a = s.let_go(d);
    lemma_let_go(s, d);
    crate::mending::lemma_mended_leads(r);
    crate::finding::law_output_is_found(s, mon, out);
    crate::wholeness::lemma_same_monitor(s, a, out);
    crate::aiming::lemma_active_place(s, mon);
    let v = s.active_view(out).unwrap();
    let n = v.ids.len() as int;
    let leading = s.monitors[mon].empty_workspace_above_first;
    assert(a.active_view(out) == Some(v));
    lemma_view_is_ok(s, act, out);
    assert(a.view_len(mon) == n);
    if (leading && at == 0) || at + 1 >= n {
        let idx = if leading && at == 0 {
            0int
        } else {
            n - 1
        };
        let y = v.ids[idx];
        assert(r == a.land(mon, idx, d.tile, None));
        lemma_landed(a, mon, idx, d.tile, None);
        crate::wholeness::lemma_same_monitor(a, r, out);
        assert forall|z: WorkspaceId, k: WindowId| #[trigger] count_on(r.pool, z, k) == count_on(
            s.pool,
            z,
            k,
        ) + if z == y && k == w {
            1int
        } else {
            0
        } by {
            assert(count_on(a.pool, z, k) == count_on(s.pool, z, k));
        }
        lemma_landed_settled(s, r, w, y, out);
        assert(v.ids.contains(y));
        assert(t.shows_on(act, out, y));
        y
    } else {
        let i = at as int;
        let b = a.add_workspace_at(mon, i);
        let y = a.pool.next_id();
        assert(r == b.land(mon, i, d.tile, None));
        crate::bookends::lemma_mint_into_leads(a, mon, act, i);
        let vb = v.insert(i, y);
        lemma_view_after_set(a.acts, act, out, vb);
        assert(b.active_view(out) == Some(vb));
        lemma_land_before(b, mon, i, d.tile);
        crate::keeping::lemma_mint_into(a, mon, act, i);
        crate::belonging::lemma_mint_into_once(a, mon, act, i);
        crate::keeping_views::lemma_mint(a, out, act);
        lemma_get(a.pool, y);
        assert(!a.pool.has(y));
        assert(b.pool.get(y) == Some(WorkspaceModel::fresh(y, out, act)));
        lemma_landed(b, mon, i, d.tile, None);
        crate::wholeness::lemma_same_monitor(a, r, out);
        assert(vb.ids[i] == y);
        assert forall|z: WorkspaceId, k: WindowId| #[trigger] count_on(r.pool, z, k) == count_on(
            s.pool,
            z,
            k,
        ) + if z == y && k == w {
            1int
        } else {
            0
        } by {
            assert(count_on(a.pool, z, k) == count_on(s.pool, z, k));
            if z == y {
                assert(count_on(b.pool, y, k) == 0);
                assert(count_on(a.pool, y, k) == 0);
            } else {
                assert(b.pool.get(z) == a.pool.get(z));
            }
        }
        lemma_landed_settled(s, r, w, y, out);
        assert(r.view_of(act, out).unwrap().ids == vb.ids);
        assert((|z: WorkspaceId| z == y || v.ids.contains(z)) =~= (|z: WorkspaceId|
            vb.ids.contains(z))) by {
            assert forall|z: WorkspaceId| #[trigger] vb.ids.contains(z) == (z == y
                || v.ids.contains(z)) by {
                crate::disconnecting::lemma_insert_contains(v.ids, i, y, z);
            }
        }
        assert(vb.ids.contains(y));
        assert(t.shows_on(act, out, y));
        y
    }
}

/// Letting a window down uses up no number before.
pub proof fn lemma_land_before(s: LayoutModel, mon: int, idx: int, tile: Tile)
    requires
        0 <= mon < s.monitors.len(),
    ensures
        s.before(s.land(mon, idx, tile, None)),
{
    crate::moves::lemma_place_resolved_leads(
        s,
        mon,
        idx,
        alone(tile),
        ActivateWindow::Yes,
        None,
        !s.overview_open,
    );
}

} // verus!
