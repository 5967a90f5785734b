//! A window that is removed is gone from its workspace, and nothing else goes with it.

use vstd::prelude::*;

use crate::census::tiles_of;
use crate::coherence::{lemma_get, lemma_get_remove};
use crate::ids::{WindowId, WorkspaceId};
use crate::interactive::DragMotion;
use crate::layout::{InteractiveMoveState, LayoutModel};
use crate::lookup::having;
use crate::pool::PoolModel;
use crate::search::{find, lemma_find_from};
use crate::tallying::{
    count_on, lemma_counted, lemma_idle_counts, lemma_mended_places, lemma_remove_counts,
    lemma_single, same_places,
};
use crate::windows::id_having;
use crate::workspace::{Tile, WorkspaceModel};

verus! {

/// Dropping a workspace that is not in use moves no window.
pub proof fn lemma_drop_places(p: PoolModel, id: WorkspaceId)
    requires
        p.wf(),
        !p.busy(id),
    ensures
        same_places(p, p.remove(id)),
{
    lemma_get_remove(p, id);
    assert forall|x: WorkspaceId, w: WindowId| #[trigger] count_on(p.remove(id), x, w) == count_on(
        p,
        x,
        w,
    ) by {
        if x == id {
            lemma_idle_counts(p, id, w);
            lemma_get(p.remove(id), id);
        }
    }
}

/// Window `w` is once less on workspace `x` in `q` than in `p`; nothing else differs.
pub open spec fn one_gone(p: PoolModel, q: PoolModel, w: WindowId, x: WorkspaceId) -> bool {
    forall|z: WorkspaceId, u: WindowId| #[trigger]
        count_on(q, z, u) == count_on(p, z, u) - if z == x && u == w {
            1int
        } else {
            0
        }
}

/// What taking a window off the one workspace that has it does.
pub proof fn lemma_picked_gone(s: LayoutModel, x: WorkspaceId, w: WindowId)
    requires
        s.pool.wf(),
        count_on(s.pool, x, w) > 0,
        forall|z: WorkspaceId| z != x ==> #[trigger] count_on(s.pool, z, w) == 0,
    ensures
        one_gone(s.pool, s.picked_off(w).pool, w, x),
        s.picked_off(w).moving == s.moving,
        s.picked_off(w).focused == s.focused,
        s.picked_off(w).acts.active == s.acts.active,
{
    let f = id_having(s.pool, w);
    assert forall|z: WorkspaceId| #[trigger] f(z) implies z == x by {
        lemma_counted(s.pool, z, w);
    }
    lemma_counted(s.pool, x, w);
    lemma_get(s.pool, x);
    lemma_remove_counts(s.pool, x, w);
    let q = s.pool.remove_window(x, w);
    crate::coherence::lemma_get_put(s.pool, x, s.pool.get(x).unwrap().remove_window(w));
    assert(q.wf());
    lemma_find_from(s.monitors, s.showing_window(w), 0);
    match s.window_place(w) {
        Some((mon, idx)) => {
            let m = s.monitors[mon];
            assert(s.showing_window(w)(m));
            let v = s.active_view(m.output.id).unwrap();
            lemma_find_from(v.ids, f, 0);
            assert(f(v.ids[idx]));
            let cull = !q.busy(x) && idx != v.active_position() && idx != v.ids.len() - 1
                && m.workspace_switch is None && q.exclusive(x);
            if cull {
                lemma_drop_places(q, x);
                lemma_get_remove(q, x);
            }
            let p1 = if cull {
                q.remove(x)
            } else {
                q
            };
            let v1 = if cull {
                v.remove_at(idx)
            } else {
                v
            };
            if crate::reclaim::doubled(p1, v1, m.empty_workspace_above_first) {
                lemma_drop_places(p1, v1.ids[1]);
            }
        },
        None => {
            lemma_find_from(s.parked, f, 0);
            match find(s.parked, f) {
                Some(i) => {
                    assert(f(s.parked[i]));
                    if !q.busy(x) {
                        lemma_drop_places(q, x);
                    }
                },
                None => {
                    lemma_find_from(s.pool.items, having(w), 0);
                    let k = s.pool.pos(x).unwrap();
                    assert(having(w)(s.pool.items[k]));
                    let j = find(s.pool.items, having(w)).unwrap();
                    let id = s.pool.items[j].id;
                    assert(having(w)(s.pool.items[j]));
                    lemma_get(s.pool, id);
                    assert(f(id));
                    if !q.busy(x) {
                        lemma_drop_places(q, x);
                    }
                },
            }
        },
    }
}

/// Releasing the pointer moves no window.
pub proof fn lemma_release_places(s: LayoutModel)
    requires
        s.pool.wf(),
    ensures
        same_places(s.pool, s.release().pool),
        s.release().pool.wf(),
{
    crate::placing::lemma_lock_all(s.pool, false);
    let q = s.pool.lock_all(false);
    assert forall|x: WorkspaceId, w: WindowId| #[trigger] count_on(q, x, w) == count_on(
        s.pool,
        x,
        w,
    ) by {
        assert(q.get(x) == q.get(x));
    }
    assert forall|i: int, j: int| 0 <= i < j < q.items.len() implies (#[trigger] q.items[i]).id.0 < (
    #[trigger] q.items[j]).id.0 by {
        assert(s.pool.items[i].id.0 < s.pool.items[j].id.0);
    }
    assert forall|i: int| 0 <= i < q.items.len() implies (#[trigger] q.items[i]).id.0 < q.next by {
        assert(s.pool.items[i].id.0 < s.pool.next);
    }
}

/// A window that is removed is taken off the workspace that has it, is handed out, and is not
/// dragged or about to be any more. No other window moves, and the focused output and the active
/// activity stay.
pub proof fn law_removed_window_is_gone(s: LayoutModel, x: WorkspaceId, w: WindowId)
    requires
        s.whole(),
        s.single(),
        count_on(s.pool, x, w) > 0,
        (LayoutModel { bookmarks: s.bookmarks.prune(w), ..s }).take_window(w).mended().fits(),
    ensures
        ({
            let t = (LayoutModel { bookmarks: s.bookmarks.prune(w), ..s }).take_window(w).mended();
            &&& one_gone(s.pool, t.pool, w, x)
            &&& forall|z: WorkspaceId| #[trigger] count_on(t.pool, z, w) == 0
            &&& !t.is_dragged(w)
            &&& t.focused == s.focused
            &&& t.acts.active == s.acts.active
            &&& match s.tile_of(w) {
                Some(tile) => tile.window.id == w && s.pool.get(x).unwrap().tiles.contains(tile),
                None => false,
            }
        }),
{
    let a = LayoutModel { bookmarks: s.bookmarks.prune(w), ..s };
    let b = a.ungrabbed(w);
    let r = a.take_window(w);
    let t = r.mended();
    lemma_single(s, x, w);
    assert(!a.is_dragged(w));
    lemma_release_places(a);
    assert(r == b.picked_off(w));
    assert(same_places(s.pool, b.pool));
    assert(count_on(b.pool, x, w) == count_on(s.pool, x, w));
    assert forall|z: WorkspaceId| z != x implies #[trigger] count_on(b.pool, z, w) == 0 by {
        assert(count_on(s.pool, z, w) == 0);
    }
    lemma_picked_gone(b, x, w);
    crate::lasting::lemma_same_layout(s, a);
    crate::lasting::law_removing_a_window_keeps_whole(a, w);
    crate::lasting::lemma_waits_unseen(a);
    crate::tending::law_removing_a_window_keeps_coherence(a, w);
    crate::mending::lemma_mended_leads(r);
    lemma_mended_places(r);
    crate::lasting::lemma_take_window_level(a, w);
    assert forall|z: WorkspaceId, u: WindowId| #[trigger] count_on(t.pool, z, u) == count_on(
        s.pool,
        z,
        u,
    ) - if z == x && u == w {
        1int
    } else {
        0
    } by {
        assert(count_on(t.pool, z, u) == count_on(r.pool, z, u));
        assert(count_on(r.pool, z, u) == count_on(b.pool, z, u) - if z == x && u == w {
            1int
        } else {
            0
        });
        assert(count_on(b.pool, z, u) == count_on(s.pool, z, u));
    }
    assert forall|z: WorkspaceId| #[trigger] count_on(t.pool, z, w) == 0 by {
        assert(count_on(t.pool, z, w) == count_on(s.pool, z, w) - if z == x {
            1int
        } else {
            0
        });
    }
    lemma_found(s, x, w);
}

/// The tile of a window that is on one workspace is found there.
pub proof fn lemma_found(s: LayoutModel, x: WorkspaceId, w: WindowId)
    requires
        s.pool.wf(),
        !s.is_dragged(w),
        count_on(s.pool, x, w) > 0,
        forall|z: WorkspaceId| z != x ==> #[trigger] count_on(s.pool, z, w) == 0,
    ensures
        match s.tile_of(w) {
            Some(tile) => tile.window.id == w && s.pool.get(x).unwrap().tiles.contains(tile),
            None => false,
        },
{
    let f = id_having(s.pool, w);
    assert forall|z: WorkspaceId| #[trigger] f(z) implies z == x by {
        lemma_counted(s.pool, z, w);
    }
    lemma_counted(s.pool, x, w);
    lemma_get(s.pool, x);
    let ws = s.pool.get(x).unwrap();
    lemma_find_from(ws.tiles, crate::workspace::shows(w), 0);
    lemma_find_from(s.monitors, s.showing_window(w), 0);
    match s.window_place(w) {
        Some((mon, idx)) => {
            assert(s.showing_window(w)(s.monitors[mon]));
            let v = s.active_view(s.monitors[mon].output.id).unwrap();
            lemma_find_from(v.ids, f, 0);
            assert(f(v.ids[idx]));
        },
        None => {
            lemma_find_from(s.parked, f, 0);
            match find(s.parked, f) {
                Some(i) => {
                    assert(f(s.parked[i]));
                },
                None => {
                    lemma_find_from(s.pool.items, having(w), 0);
                    assert(having(w)(s.pool.items[s.pool.pos(x).unwrap()]));
                    let j = find(s.pool.items, having(w)).unwrap();
                    assert(having(w)(s.pool.items[j]));
                    lemma_get(s.pool, s.pool.items[j].id);
                    assert(f(s.pool.items[j].id));
                },
            }
        },
    }
}

/// A window that is dragged and removed is handed out and no longer dragged. No other window moves.
pub proof fn law_removed_dragged_window_is_gone(s: LayoutModel, w: WindowId)
    requires
        s.whole(),
        s.single(),
        s.is_dragged(w),
        (LayoutModel { bookmarks: s.bookmarks.prune(w), ..s }).take_window(w).mended().fits(),
    ensures
        ({
            let t = (LayoutModel { bookmarks: s.bookmarks.prune(w), ..s }).take_window(w).mended();
            &&& same_places(s.pool, t.pool)
            &&& t.moving is None
            &&& t.focused == s.focused
            &&& t.acts.active == s.acts.active
            &&& s.tile_of(w) is Some
            &&& s.tile_of(w).unwrap().window.id == w
        }),
{
    let a = LayoutModel { bookmarks: s.bookmarks.prune(w), ..s };
    let r = a.take_window(w);
    let t = r.mended();
    lemma_release_places(a);
    crate::lasting::lemma_same_layout(s, a);
    crate::lasting::lemma_waits_unseen(a);
    crate::tending::law_removing_a_window_keeps_coherence(a, w);
    crate::mending::lemma_mended_leads(r);
    lemma_mended_places(r);
    assert forall|z: WorkspaceId, u: WindowId| #[trigger] count_on(t.pool, z, u) == count_on(
        s.pool,
        z,
        u,
    ) by {
        assert(count_on(t.pool, z, u) == count_on(r.pool, z, u));
        assert(count_on(r.pool, z, u) == count_on(a.pool, z, u));
    }
}

/// A workspace that loses the window at `pos` has the others in their order. If that was its active
/// window, the one that takes its place is, or the last one if there is none; otherwise the active
/// window stays.
pub proof fn law_next_window_takes_over(ws: WorkspaceModel, pos: int, w: WindowId)
    requires
        0 <= pos < ws.tiles.len(),
        ws.tiles[pos].window.id == w,
        forall|k: int| 0 <= k < pos ==> (#[trigger] ws.tiles[k]).window.id != w,
    ensures
        ({
            let r = ws.remove_window(w);
            let rest = ws.tiles.remove(pos);
            &&& r.tiles.len() == rest.len()
            &&& forall|k: int|
                0 <= k < rest.len() ==> (#[trigger] r.tiles[k]).window == rest[k].window
                    && r.tiles[k].floating == rest[k].floating
            &&& r.active == if ws.active != Some(w) {
                ws.active
            } else if rest.len() == 0 {
                None
            } else if pos < rest.len() {
                Some(rest[pos].window.id)
            } else {
                Some(rest.last().window.id)
            }
            &&& r.name == ws.name
            &&& r.activities == ws.activities
        }),
{
    lemma_find_from(ws.tiles, crate::workspace::shows(w), 0);
    assert(crate::workspace::shows(w)(ws.tiles[pos]));
    let k = ws.window_pos(w).unwrap();
    if k < pos {
        assert(crate::workspace::shows(w)(ws.tiles[k]));
    }
}

/// A window that was grabbed on workspace `x` and is dragged far enough, or floats, is pulled out: it
/// is gone from its workspace and dragged over the output under the pointer. No other window moves.
/// Otherwise nothing happens.
pub proof fn law_grabbed_window_is_pulled_out(
    s: LayoutModel,
    x: WorkspaceId,
    w: WindowId,
    m: DragMotion,
    tile: Tile,
)
    requires
        s.whole(),
        s.single(),
        s.moving == Some((InteractiveMoveState::Starting { window_id: w })),
        s.pool.has(x),
        s.pool.get(x).unwrap().tiles.contains(tile),
        tile.window.id == w,
        s.update_move(w, m).mended().fits(),
    ensures
        ({
            let t = s.update_move(w, m).mended();
            if m.far || tile.floating {
                &&& one_gone(s.pool, t.pool, w, x)
                &&& t.focused == s.focused
                &&& t.acts.active == s.acts.active
                &&& match t.moving {
                    Some(InteractiveMoveState::Moving(d)) => {
                        &&& d.tile.window.id == w
                        &&& d.tile.floating == m.floats
                        &&& d.output == m.output
                    },
                    _ => false,
                }
            } else {
                t == s
            }
        }),
{
    let r = s.update_move(w, m);
    let t = r.mended();
    let ws = s.pool.get(x).unwrap();
    let k = choose|k: int| 0 <= k < ws.tiles.len() && ws.tiles[k] == tile;
    assert(count_on(s.pool, x, w) > 0) by {
        lemma_find_from(ws.tiles, crate::workspace::shows(w), 0);
        assert(crate::workspace::shows(w)(ws.tiles[k]));
        lemma_counted(s.pool, x, w);
    }
    lemma_single(s, x, w);
    crate::finding::law_window_is_found_on_its_workspace(s, x, w);
    lemma_one_tile(ws.tiles, w, k);
    assert(s.floats_at_home(w) == tile.floating) by {
        lemma_find_from(ws.tiles, crate::workspace::shows(w), 0);
        let p = ws.window_pos(w).unwrap();
        assert(crate::workspace::shows(w)(ws.tiles[p]));
        assert(p == k);
    }
    crate::wholeness::law_mending_is_idle(s);
    if m.far || tile.floating {
        let a = LayoutModel { moving: None, ..s };
        let b = a.take_window(w);
        assert(b == a.picked_off(w));
        lemma_picked_gone(a, x, w);
        lemma_found(a, x, w);
        crate::lasting::lemma_waits_unseen(s);
        crate::upholding::law_dragging_keeps_coherence(s, w, m);
        crate::mending::lemma_mended_leads(r);
        lemma_mended_places(r);
        let c = if m.floats {
            b.hold_views(false)
        } else {
            b
        };
        crate::lasting::lemma_same_layout(s, a);
        crate::lasting::lemma_waits_unseen(a);
        crate::tending::law_removing_a_window_keeps_coherence(a, w);
        lemma_release_places(b);
        assert(same_places(b.pool, c.pool));
        crate::lasting::lemma_take_window_level(a, w);
        assert forall|z: WorkspaceId, u: WindowId| #[trigger] count_on(t.pool, z, u) == count_on(
            s.pool,
            z,
            u,
        ) - if z == x && u == w {
            1int
        } else {
            0
        } by {
            assert(count_on(t.pool, z, u) == count_on(r.pool, z, u));
            assert(count_on(c.pool, z, u) == count_on(b.pool, z, u));
        }
    }
}

/// A window that counts once has one tile.
pub proof fn lemma_one_tile(tiles: Seq<Tile>, w: WindowId, k: int)
    requires
        tiles_of(tiles, w) <= 1,
        0 <= k < tiles.len(),
        tiles[k].window.id == w,
    ensures
        forall|j: int| 0 <= j < tiles.len() && (#[trigger] tiles[j]).window.id == w ==> j == k,
    decreases tiles.len(),
{
    let rest = tiles.drop_last();
    let n = rest.len() as int;
    crate::census::lemma_tiles_of(rest, w);
    assert forall|j: int| 0 <= j < tiles.len() && (#[trigger] tiles[j]).window.id == w implies j == k by {
        if k < n {
            assert(rest[k].window.id == w);
            lemma_one_tile(rest, w, k);
            if j < n {
                assert(rest[j].window.id == w);
            }
        } else if j < n {
            assert(rest[j].window.id == w);
        }
    }
}

} // verus!
