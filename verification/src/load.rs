//! No step on the way of an operation doubles a window.

use vstd::prelude::*;

use crate::census::{
    lemma_pool_remove_tally, lemma_push_tally, lemma_put_tally, lemma_same_tally, lemma_tiles_of,
    tally, tiles_of,
};
use crate::coherence::lemma_get;
use crate::ids::{ActivityId, OutputId, WindowId, WorkspaceId};
use crate::layout::LayoutModel;
use crate::pool::PoolModel;
use crate::reconcile::{Missing, Stray};
use crate::search::lemma_find_from;
use crate::windows::ActivateWindow;
use crate::workspace::{in_column, not_in_column, Tile, WorkspaceModel};

verus! {

/// Tiles of the same windows hold a window as often.
pub proof fn lemma_same_tiles(a: Seq<Tile>, b: Seq<Tile>, w: WindowId)
    requires
        a.len() == b.len(),
        forall|i: int| 0 <= i < a.len() ==> (#[trigger] a[i]).window.id == b[i].window.id,
    ensures
        tiles_of(a, w) == tiles_of(b, w),
    decreases a.len(),
{
    if a.len() > 0 {
        let c = a.drop_last();
        let d = b.drop_last();
        assert forall|i: int| 0 <= i < c.len() implies (#[trigger] c[i]).window.id
            == d[i].window.id by {
            assert(a[i].window.id == b[i].window.id);
        }
        lemma_same_tiles(c, d, w);
        assert(a[a.len() - 1].window.id == b[b.len() - 1].window.id);
    }
}

/// Taking a tile out takes its window out once.
pub proof fn lemma_remove_tile(tiles: Seq<Tile>, i: int, w: WindowId)
    requires
        0 <= i < tiles.len(),
    ensures
        tiles_of(tiles.remove(i), w) == tiles_of(tiles, w) - if tiles[i].window.id == w {
            1int
        } else {
            0
        },
    decreases tiles.len(),
{
    let rest = tiles.drop_last();
    let new = tiles.remove(i);
    if i < rest.len() {
        lemma_remove_tile(rest, i, w);
        assert(new.drop_last() =~= rest.remove(i));
        assert(new.last() == tiles.last());
    } else {
        assert(new =~= rest);
    }
}

/// Putting tiles together adds up how often they hold a window.
pub proof fn lemma_concat_tiles(a: Seq<Tile>, b: Seq<Tile>, w: WindowId)
    ensures
        tiles_of(a + b, w) == tiles_of(a, w) + tiles_of(b, w),
    decreases b.len(),
{
    if b.len() == 0 {
        assert(a + b =~= a);
    } else {
        lemma_concat_tiles(a, b.drop_last(), w);
        assert((a + b).drop_last() =~= a + b.drop_last());
        assert((a + b).last() == b.last());
    }
}

/// A column and the rest hold a window as often as the workspace did.
pub proof fn lemma_split_tiles(tiles: Seq<Tile>, leader: WindowId, w: WindowId)
    ensures
        tiles_of(tiles.filter(in_column(leader)), w) + tiles_of(
            tiles.filter(not_in_column(leader)),
            w,
        ) == tiles_of(tiles, w),
    decreases tiles.len(),
{
    reveal(Seq::filter);
    let p = in_column(leader);
    let q = not_in_column(leader);
    if tiles.len() > 0 {
        let rest = tiles.drop_last();
        let t = tiles.last();
        lemma_split_tiles(rest, leader, w);
        let a = rest.filter(p);
        let b = rest.filter(q);
        assert(a.push(t).drop_last() =~= a);
        assert(b.push(t).drop_last() =~= b);
        if p(t) {
            assert(tiles.filter(p) == a.push(t));
            assert(tiles.filter(q) == b);
        } else {
            assert(tiles.filter(p) == a);
            assert(tiles.filter(q) == b.push(t));
        }
    }
}

/// A window taken off a workspace is there once less.
pub proof fn lemma_remove_window_tiles(x: WorkspaceModel, w: WindowId, u: WindowId)
    ensures
        tiles_of(x.remove_window(w).tiles, u) == tiles_of(x.tiles, u) - if x.has_window(w) && u
            == w {
            1int
        } else {
            0
        },
{
    lemma_find_from(x.tiles, crate::workspace::shows(w), 0);
    if let Some(pos) = x.window_pos(w) {
        let rest = x.tiles.remove(pos);
        lemma_remove_tile(x.tiles, pos, u);
        lemma_same_tiles(x.remove_window(w).tiles, rest, u);
    }
}

/// A window taken out of the pool is there once less.
pub broadcast proof fn lemma_remove_window_load(p: PoolModel, id: WorkspaceId, w: WindowId, u: WindowId)
    ensures
        #[trigger] tally(p.remove_window(id, w).items, u) == tally(p.items, u) - match p.get(id) {
            Some(x) => if x.has_window(w) && u == w {
                1int
            } else {
                0
            },
            None => 0,
        },
{
    broadcast use lemma_put_tally;

    if let Some(x) = p.get(id) {
        lemma_remove_window_tiles(x, w, u);
    }
}

/// A window put on a workspace is there once more.
pub broadcast proof fn lemma_add_tile_load(p: PoolModel, id: WorkspaceId, t: Tile, on: bool, u: WindowId)
    ensures
        #[trigger] tally(p.add_tile(id, t, on).items, u) == tally(p.items, u) + if p.has(id) && u
            == t.window.id {
            1int
        } else {
            0
        },
{
    broadcast use lemma_put_tally;

    lemma_get(p, id);
    if let Some(x) = p.get(id) {
        assert(x.tiles.push(t).drop_last() =~= x.tiles);
    }
}

/// A new workspace holds no window.
pub broadcast proof fn lemma_mint_into_load(s: LayoutModel, mon: int, act: ActivityId, pos: int, u: WindowId)
    ensures
        #[trigger] tally(s.mint_into(mon, act, pos).pool.items, u) == tally(s.pool.items, u),
{
    broadcast use lemma_push_tally;

}

/// New bookends hold no window.
pub broadcast proof fn lemma_normalize_view_load(s: LayoutModel, mon: int, act: ActivityId, u: WindowId)
    ensures
        #[trigger] tally(s.normalize_view(mon, act).pool.items, u) == tally(s.pool.items, u),
{
    broadcast use lemma_mint_into_load;

}

/// New bookends hold no window.
pub proof fn lemma_normalize_acts_load(s: LayoutModel, mon: int, n: int, u: WindowId)
    ensures
        tally(s.normalize_acts(mon, n).pool.items, u) == tally(s.pool.items, u),
    decreases n,
{
    broadcast use lemma_normalize_view_load;

    if n > 0 {
        lemma_normalize_acts_load(s, mon, n - 1, u);
    }
}

/// New bookends hold no window.
pub proof fn lemma_normalize_mons_load(s: LayoutModel, n: int, u: WindowId)
    ensures
        tally(s.normalize_mons(n).pool.items, u) == tally(s.pool.items, u),
    decreases n,
{
    if n > 0 {
        lemma_normalize_mons_load(s, n - 1, u);
        lemma_normalize_acts_load(s.normalize_mons(n - 1), n - 1, s.acts.list.len() as int, u);
    }
}

/// New bookends hold no window.
pub broadcast proof fn lemma_normalize_load(s: LayoutModel, u: WindowId)
    ensures
        #[trigger] tally(s.normalize().pool.items, u) == tally(s.pool.items, u),
{
    lemma_normalize_mons_load(s, s.monitors.len() as int, u);
}

/// Destroying a workspace adds no window.
pub broadcast proof fn lemma_destroy_load(s: LayoutModel, id: WorkspaceId, u: WindowId)
    ensures
        #[trigger] tally(s.destroy(id).pool.items, u) <= tally(s.pool.items, u),
{
    broadcast use lemma_pool_remove_tally;

}

/// Destroying workspaces adds no window.
pub broadcast proof fn lemma_destroy_all_load(s: LayoutModel, ids: Seq<WorkspaceId>, u: WindowId)
    ensures
        #[trigger] tally(s.destroy_all(ids).pool.items, u) <= tally(s.pool.items, u),
    decreases ids.len(),
{
    broadcast use lemma_destroy_load;

    if ids.len() > 0 {
        lemma_destroy_all_load(s, ids.drop_last(), u);
    }
}

/// Cleaning up adds no window.
pub broadcast proof fn lemma_clean_up_load(s: LayoutModel, mon: int, u: WindowId)
    ensures
        #[trigger] tally(s.clean_up(mon).pool.items, u) <= tally(s.pool.items, u),
{
    broadcast use lemma_destroy_all_load;

}

/// Tidying adds no window.
pub broadcast proof fn lemma_tidy_load(s: LayoutModel, mon: int, u: WindowId)
    ensures
        #[trigger] tally(s.tidy(mon).pool.items, u) <= tally(s.pool.items, u),
{
    broadcast use lemma_clean_up_load;

}

/// Reclaiming a workspace adds no window.
pub broadcast proof fn lemma_reclaim_load(s: LayoutModel, id: WorkspaceId, u: WindowId)
    ensures
        #[trigger] tally(s.reclaim(id).pool.items, u) <= tally(s.pool.items, u),
{
    broadcast use lemma_destroy_load;

}

/// Reclaiming workspaces adds no window.
pub broadcast proof fn lemma_reclaim_all_load(s: LayoutModel, ids: Seq<WorkspaceId>, u: WindowId)
    ensures
        #[trigger] tally(s.reclaim_all(ids).pool.items, u) <= tally(s.pool.items, u),
    decreases ids.len(),
{
    broadcast use lemma_reclaim_load;

    if ids.len() > 0 {
        lemma_reclaim_all_load(s, ids.drop_last(), u);
    }
}

/// Merging two empty workspaces adds no window.
pub broadcast proof fn lemma_collapse_load(s: LayoutModel, act: ActivityId, out: OutputId, u: WindowId)
    ensures
        #[trigger] tally(s.collapse(act, out).pool.items, u) <= tally(s.pool.items, u),
{
    broadcast use lemma_destroy_load;

}

/// Merging empty workspaces adds no window.
pub broadcast proof fn lemma_collapse_all_load(s: LayoutModel, work: Seq<Stray>, u: WindowId)
    ensures
        #[trigger] tally(s.collapse_all(work).pool.items, u) <= tally(s.pool.items, u),
    decreases work.len(),
{
    broadcast use lemma_collapse_load;

    if work.len() > 0 {
        lemma_collapse_all_load(s, work.drop_last(), u);
    }
}

/// Opening a view adds no window.
pub broadcast proof fn lemma_ensure_view_load(s: LayoutModel, mon: int, act: ActivityId, u: WindowId)
    ensures
        #[trigger] tally(s.ensure_view(mon, act).pool.items, u) == tally(s.pool.items, u),
{
    broadcast use lemma_push_tally;

}

/// Opening an activity's views adds no window.
pub proof fn lemma_ensure_row_load(s: LayoutModel, act: ActivityId, n: int, u: WindowId)
    ensures
        tally(s.ensure_row(act, n).pool.items, u) == tally(s.pool.items, u),
    decreases n,
{
    broadcast use lemma_ensure_view_load;

    if n > 0 {
        lemma_ensure_row_load(s, act, n - 1, u);
    }
}

/// Opening views adds no window.
pub proof fn lemma_ensure_rows_load(s: LayoutModel, n: int, u: WindowId)
    ensures
        tally(s.ensure_rows(n).pool.items, u) == tally(s.pool.items, u),
    decreases n,
{
    if n > 0 {
        lemma_ensure_rows_load(s, n - 1, u);
        lemma_ensure_row_load(
            s.ensure_rows(n - 1),
            s.acts.list[n - 1].id,
            s.monitors.len() as int,
            u,
        );
    }
}

/// Opening views adds no window.
pub broadcast proof fn lemma_ensure_all_load(s: LayoutModel, u: WindowId)
    ensures
        #[trigger] tally(s.ensure_all().pool.items, u) == tally(s.pool.items, u),
{
    lemma_ensure_rows_load(s, s.acts.list.len() as int, u);
}

/// Taking a workspace out of views leaves the pool alone.
pub broadcast proof fn lemma_unshow_from_pool(s: LayoutModel, acts: Seq<ActivityId>, id: WorkspaceId)
    ensures
        (#[trigger] s.unshow_from(acts, id)).pool == s.pool,
    decreases acts.len(),
{
    if acts.len() > 0 {
        lemma_unshow_from_pool(s, acts.drop_last(), id);
    }
}

/// Moving a workspace between views leaves the pool alone.
pub broadcast proof fn lemma_rehome_pool(
    s: LayoutModel,
    acts: Seq<ActivityId>,
    id: WorkspaceId,
    from: OutputId,
    to: OutputId,
)
    ensures
        (#[trigger] s.rehome(acts, id, from, to)).pool == s.pool,
    decreases acts.len(),
{
    if acts.len() > 0 {
        lemma_rehome_pool(s, acts.drop_last(), id, from, to);
    }
}

/// Taking workspaces out of views leaves the pool alone.
pub broadcast proof fn lemma_unshow_all_pool(s: LayoutModel, work: Seq<Stray>)
    ensures
        (#[trigger] s.unshow_all(work)).pool == s.pool,
    decreases work.len(),
{
    if work.len() > 0 {
        lemma_unshow_all_pool(s, work.drop_last());
    }
}

/// Listing workspaces in views leaves the pool alone.
pub broadcast proof fn lemma_show_all_pool(s: LayoutModel, work: Seq<Missing>)
    ensures
        (#[trigger] s.show_all(work)).pool == s.pool,
    decreases work.len(),
{
    if work.len() > 0 {
        lemma_show_all_pool(s, work.drop_last());
    }
}

/// Reconciling adds no window.
pub broadcast proof fn lemma_reconcile_load(s: LayoutModel, u: WindowId)
    ensures
        #[trigger] tally(s.reconcile().pool.items, u) <= tally(s.pool.items, u),
{
    broadcast use {
        lemma_unshow_all_pool,
        lemma_show_all_pool,
        lemma_collapse_all_load,
        lemma_ensure_all_load,
        lemma_normalize_load,
        lemma_reclaim_all_load,
    };

}

/// Focusing a workspace leaves the pool alone.
pub broadcast proof fn lemma_focus_on_pool(s: LayoutModel, mon: int, idx: int)
    ensures
        (#[trigger] s.focus_on(mon, idx)).pool == s.pool,
{
}

/// A tile that is placed adds its window at most once.
pub broadcast proof fn lemma_place_load(
    s: LayoutModel,
    mon: int,
    idx: int,
    t: Tile,
    activate: ActivateWindow,
    beside: Option<WindowId>,
    allow: bool,
    u: WindowId,
)
    ensures
        #[trigger] tally(s.place_resolved(mon, idx, t, activate, beside, allow).pool.items, u)
            <= tally(s.pool.items, u) + if u == t.window.id {
            1int
        } else {
            0
        },
{
    broadcast use {
        lemma_put_tally,
        lemma_add_tile_load,
        lemma_mint_into_load,
        lemma_focus_on_pool,
    };

}

/// A window carried over is nowhere twice.
pub broadcast proof fn lemma_carry_load(
    s: LayoutModel,
    mon: int,
    from: int,
    which: Option<WindowId>,
    mon2: int,
    to: int,
    activate: ActivateWindow,
    u: WindowId,
)
    ensures
        #[trigger] tally(s.carry(mon, from, which, mon2, to, activate).pool.items, u) <= tally(
            s.pool.items,
            u,
        ),
{
    broadcast use {lemma_remove_window_load, lemma_place_load};

    if let Some(x) = s.workspace_at(mon, from) {
        if let Some(t) = x.tile(which) {
            lemma_tile_there(s, mon, from, which);
        }
    }
}

/// The tile that a workspace gives is one of its own.
pub proof fn lemma_tile_there(s: LayoutModel, mon: int, from: int, which: Option<WindowId>)
    requires
        s.workspace_at(mon, from) is Some,
        s.workspace_at(mon, from).unwrap().tile(which) is Some,
    ensures
        ({
            let x = s.workspace_at(mon, from).unwrap();
            s.pool.get(x.id) is Some && s.pool.get(x.id).unwrap().tiles == x.tiles && x.has_window(
                x.tile(which).unwrap().window.id,
            )
        }),
{
    let x = s.workspace_at(mon, from).unwrap();
    let id = s.active_view(s.monitors[mon].output.id).unwrap().ids[from];
    lemma_get(s.pool, id);
    assert(x.id == id);
    let w = match which {
        Some(w) => w,
        None => x.active.unwrap(),
    };
    lemma_find_from(x.tiles, crate::workspace::shows(w), 0);
    assert(x.tile(which).unwrap().window.id == w);
}

/// A column put down adds its windows once.
pub proof fn lemma_put_column_load(
    s: LayoutModel,
    mon: int,
    idx: int,
    column: Seq<Tile>,
    head: Option<WindowId>,
    activate: bool,
    u: WindowId,
)
    ensures
        tally(s.put_column(mon, idx, column, head, activate).pool.items, u) <= tally(
            s.pool.items,
            u,
        ) + tiles_of(column, u),
{
    broadcast use {lemma_put_tally, lemma_focus_on_pool};

    lemma_tiles_of(column, u);
    if let Some(v) = s.active_view(s.monitors[mon].output.id) {
        if 0 <= idx < v.ids.len() {
            if let Some(x) = s.pool.get(v.ids[idx]) {
                lemma_concat_tiles(x.tiles, column, u);
            }
        }
    }
}

/// A column carried over is nowhere twice.
pub broadcast proof fn lemma_carry_column_load(
    s: LayoutModel,
    mon: int,
    from: int,
    mon2: int,
    to: int,
    activate: bool,
    u: WindowId,
)
    ensures
        #[trigger] tally(s.carry_column(mon, from, mon2, to, activate).pool.items, u) <= tally(
            s.pool.items,
            u,
        ),
{
    broadcast use lemma_put_tally;

    if let Some(x) = s.workspace_at(mon, from) {
        if let Some(column) = x.active_column() {
            let id = s.active_view(s.monitors[mon].output.id).unwrap().ids[from];
            lemma_get(s.pool, id);
            let leader = x.active_tile().unwrap().column;
            lemma_split_tiles(x.tiles, leader, u);
            let a = LayoutModel { pool: s.pool.take_active_column(x.id), ..s };
            lemma_put_column_load(a, mon2, to, column, x.active, activate, u);
        }
    }
}

/// Locking all workspaces moves no window.
pub broadcast proof fn lemma_lock_load(p: PoolModel, on: bool, u: WindowId)
    ensures
        #[trigger] tally(p.lock_all(on).items, u) == tally(p.items, u),
{
    lemma_same_tally(p.lock_all(on).items, p.items, u);
}

} // verus!
