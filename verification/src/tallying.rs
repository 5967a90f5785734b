//! How often a window is on a workspace, and what leaves that as it is.

use vstd::prelude::*;

use crate::census::{lemma_tiles_of, tiles_of};
use crate::coherence::{lemma_get, lemma_get_put};
use crate::cores::same_work;
use crate::ids::{WindowId, WorkspaceId};
use crate::layout::LayoutModel;
use crate::load::lemma_remove_window_tiles;
use crate::pool::PoolModel;
use crate::workspace::{Output, Tile, WorkspaceModel};

verus! {

/// How often window `w` is on workspace `x`.
pub open spec fn count_on(p: PoolModel, x: WorkspaceId, w: WindowId) -> int {
    match p.get(x) {
        Some(ws) => tiles_of(ws.tiles, w),
        None => 0,
    }
}

/// Every window is as often on every workspace of `q` as of `p`.
pub open spec fn same_places(p: PoolModel, q: PoolModel) -> bool {
    forall|x: WorkspaceId, w: WindowId| #[trigger] count_on(q, x, w) == count_on(p, x, w)
}

/// In `q` window `w` is once more on workspace `y` than in `p`; nothing else differs.
pub open spec fn one_put(p: PoolModel, q: PoolModel, w: WindowId, y: WorkspaceId) -> bool {
    forall|x: WorkspaceId, u: WindowId| #[trigger]
        count_on(q, x, u) == count_on(p, x, u) + if x == y && u == w {
            1int
        } else {
            0
        }
}

/// In `q` window `w` is once less on workspace `x` than in `p`, and once more on workspace `y`;
/// nothing else differs.
pub open spec fn one_moved(p: PoolModel, q: PoolModel, w: WindowId, x: WorkspaceId, y: WorkspaceId) -> bool {
    forall|z: WorkspaceId, u: WindowId| #[trigger]
        count_on(q, z, u) == count_on(p, z, u) - (if z == x && u == w {
            1int
        } else {
            0
        }) + (if z == y && u == w {
            1int
        } else {
            0
        })
}

/// A workspace that is not in use has no window.
pub proof fn lemma_idle_counts(p: PoolModel, x: WorkspaceId, w: WindowId)
    requires
        !p.busy(x),
    ensures
        count_on(p, x, w) == 0,
{
    if let Some(ws) = p.get(x) {
        assert(ws.tiles.len() == 0);
    }
}

/// A workspace that has a window is in use.
pub proof fn lemma_counted(p: PoolModel, x: WorkspaceId, w: WindowId)
    ensures
        count_on(p, x, w) >= 0,
        count_on(p, x, w) > 0 ==> p.busy(x),
        count_on(p, x, w) > 0 <==> match p.get(x) {
            Some(ws) => ws.has_window(w),
            None => false,
        },
{
    if let Some(ws) = p.get(x) {
        lemma_tiles_of(ws.tiles, w);
        crate::search::lemma_find_from(ws.tiles, crate::workspace::shows(w), 0);
        if tiles_of(ws.tiles, w) > 0 {
            let k = choose|k: int| 0 <= k < ws.tiles.len() && (#[trigger] ws.tiles[k]).window.id == w;
            assert(crate::workspace::shows(w)(ws.tiles[k]));
        }
    }
}

/// Mending moves no window.
pub proof fn lemma_mended_places(s: LayoutModel)
    requires
        s.staffed(),
        s.mended().fits(),
    ensures
        same_places(s.pool, s.mended().pool),
{
    crate::persisting::lemma_mended_work(s);
    let t = s.mended();
    assert forall|x: WorkspaceId, w: WindowId| #[trigger] count_on(t.pool, x, w) == count_on(
        s.pool,
        x,
        w,
    ) by {
        assert(t.pool.busy(x) == s.pool.busy(x));
        if s.pool.busy(x) {
            assert(t.pool.has(x));
        } else {
            lemma_idle_counts(s.pool, x, w);
            lemma_idle_counts(t.pool, x, w);
        }
    }
}

/// Where the same work is done every window is where it was.
pub proof fn lemma_work_places(p: PoolModel, q: PoolModel, o: Output)
    requires
        same_work(p, q, o),
    ensures
        same_places(p, q),
{
    assert forall|x: WorkspaceId, w: WindowId| #[trigger] count_on(q, x, w) == count_on(p, x, w) by {
        assert(q.busy(x) == p.busy(x));
        if !p.busy(x) {
            lemma_idle_counts(p, x, w);
            lemma_idle_counts(q, x, w);
        }
    }
}

/// One workspace changed.
pub proof fn lemma_put_counts(p: PoolModel, id: WorkspaceId, ws: WorkspaceModel)
    requires
        ws.id == id,
    ensures
        forall|x: WorkspaceId, w: WindowId| #[trigger]
            count_on(p.put(id, ws), x, w) == if x == id && p.has(id) {
                tiles_of(ws.tiles, w)
            } else {
                count_on(p, x, w)
            },
{
    lemma_get_put(p, id, ws);
    lemma_get(p, id);
}

/// A window taken off a workspace is there once less.
pub proof fn lemma_remove_counts(p: PoolModel, id: WorkspaceId, w: WindowId)
    ensures
        forall|x: WorkspaceId, u: WindowId| #[trigger]
            count_on(p.remove_window(id, w), x, u) == count_on(p, x, u) - if x == id && u == w
                && count_on(p, id, w) > 0 {
                1int
            } else {
                0
            },
{
    lemma_get(p, id);
    lemma_counted(p, id, w);
    if let Some(ws) = p.get(id) {
        lemma_put_counts(p, id, ws.remove_window(w));
        assert forall|x: WorkspaceId, u: WindowId| #[trigger]
            count_on(p.remove_window(id, w), x, u) == count_on(p, x, u) - if x == id && u == w
                && count_on(p, id, w) > 0 {
                1int
            } else {
                0
            } by {
            lemma_remove_window_tiles(ws, w, u);
        }
    }
}

/// A window put on a workspace is there once more.
pub proof fn lemma_add_counts(p: PoolModel, id: WorkspaceId, t: Tile, on: bool)
    requires
        p.has(id),
    ensures
        one_put(p, p.add_tile(id, t, on), t.window.id, id),
{
    lemma_get(p, id);
    let ws = p.get(id).unwrap();
    lemma_put_counts(p, id, ws.add_tile(t, on));
    assert(ws.tiles.push(t).drop_last() =~= ws.tiles);
}

/// Pools in which what is in use has the same windows.
pub proof fn lemma_like_places(p: PoolModel, q: PoolModel)
    requires
        forall|x: WorkspaceId| #[trigger] p.has(x) ==> q.has(x) && q.get(x).unwrap().tiles == p.get(
            x,
        ).unwrap().tiles,
        forall|x: WorkspaceId| #[trigger] q.busy(x) ==> p.has(x),
    ensures
        same_places(p, q),
{
    assert forall|x: WorkspaceId, w: WindowId| #[trigger] count_on(q, x, w) == count_on(p, x, w) by {
        if p.has(x) {
        } else if !q.busy(x) {
            lemma_idle_counts(q, x, w);
        }
    }
}

/// In an orderly layout a window that is on a workspace is there once, nowhere else, and not
/// dragged.
pub proof fn lemma_single(s: LayoutModel, x: WorkspaceId, w: WindowId)
    requires
        s.single(),
        s.pool.wf(),
        count_on(s.pool, x, w) > 0,
    ensures
        count_on(s.pool, x, w) == 1,
        !s.is_dragged(w),
        forall|z: WorkspaceId| z != x ==> #[trigger] count_on(s.pool, z, w) == 0,
{
    let p = s.pool;
    lemma_get(p, x);
    let i = p.pos(x).unwrap();
    lemma_tally_at(p.items, i, w);
    assert(s.census(w) <= 1);
    assert forall|z: WorkspaceId| z != x implies #[trigger] count_on(p, z, w) == 0 by {
        lemma_get(p, z);
        if let Some(j) = p.pos(z) {
            lemma_tally_two(p.items, i, j, w);
            lemma_tiles_of(p.items[j].tiles, w);
        }
    }
}

/// The whole is no less than one part.
pub proof fn lemma_tally_at(items: Seq<WorkspaceModel>, i: int, w: WindowId)
    requires
        0 <= i < items.len(),
    ensures
        tiles_of(items[i].tiles, w) <= crate::census::tally(items, w),
    decreases items.len(),
{
    let rest = items.drop_last();
    crate::census::lemma_tally(rest, w);
    lemma_tiles_of(items.last().tiles, w);
    if i < rest.len() {
        lemma_tally_at(rest, i, w);
    }
}

/// The whole is no less than two parts.
pub proof fn lemma_tally_two(items: Seq<WorkspaceModel>, i: int, j: int, w: WindowId)
    requires
        0 <= i < items.len(),
        0 <= j < items.len(),
        i != j,
    ensures
        tiles_of(items[i].tiles, w) + tiles_of(items[j].tiles, w) <= crate::census::tally(items, w),
    decreases items.len(),
{
    let rest = items.drop_last();
    let n = rest.len() as int;
    lemma_tiles_of(items.last().tiles, w);
    if i < n && j < n {
        lemma_tally_two(rest, i, j, w);
    } else if i < n {
        lemma_tally_at(rest, i, w);
    } else {
        lemma_tally_at(rest, j, w);
    }
}

} // verus!
