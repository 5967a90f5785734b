//! Every step of an operation leaves the layout in order.

use vstd::prelude::*;

use crate::arrange::{lemma_attach_leads, lemma_detach_leads, lemma_rehome_leads};
use crate::bookends::{lemma_mint_into_leads, lemma_normalize_leads};
use crate::census::{
    gist, lemma_leads_gist, lemma_order, lemma_pool_remove_tally, lemma_push_tally, lemma_put_tally,
    lemma_tally, lemma_tiles_of, switches, tally, tiles_of,
};
use crate::coherence::lemma_get;
use crate::gestures::Reached;
use crate::ids::{OutputId, WindowId, WorkspaceId};
use crate::interactive::{DragMotion, DropPlace};
use crate::layout::{on_output, DndHoldTarget, InteractiveMoveState, LayoutModel};
use crate::load::{
    lemma_add_tile_load, lemma_carry_column_load, lemma_carry_load, lemma_clean_up_load,
    lemma_destroy_load, lemma_focus_on_pool, lemma_lock_load, lemma_mint_into_load,
    lemma_normalize_load, lemma_place_load, lemma_put_column_load, lemma_rehome_pool,
    lemma_remove_window_load, lemma_tidy_load, lemma_tile_there,
};
use crate::moves::{alone, lemma_carry_leads, lemma_place_resolved_leads, lemma_tidy_leads};
use crate::reclaim::{lemma_clean_up_leads, lemma_with_view_leads};
use crate::pool::PoolModel;
use crate::search::lemma_find_from;
use crate::view::ViewModel;
use crate::windows::{lemma_focus_on_leads, ActivateWindow, AddWindowTarget};
use crate::workspace::Tile;

verus! {

/// `t` differs from `s` in nothing that the monitors' agreement depends on, and holds no window
/// more often.
pub open spec fn orders(s: LayoutModel, t: LayoutModel) -> bool {
    &&& gist(t) == gist(s)
    &&& forall|w: WindowId| #[trigger] t.census(w) <= s.census(w)
}

/// The layout stays in order.
pub proof fn lemma_orders(s: LayoutModel, t: LayoutModel)
    requires
        orders(s, t),
    ensures
        s.orderly() ==> t.orderly(),
{
    if s.orderly() {
        lemma_order(s, t);
    }
}

/// Steps that keep the layout in order do so together.
pub proof fn lemma_orders_trans(s: LayoutModel, t: LayoutModel, u: LayoutModel)
    requires
        orders(s, t),
        orders(t, u),
    ensures
        orders(s, u),
{
    assert forall|w: WindowId| #[trigger] u.census(w) <= s.census(w) by {
        assert(t.census(w) <= s.census(w));
    }
}

/// A step that leads on and adds no window keeps the layout in order.
pub proof fn lemma_leads_order(s: LayoutModel, t: LayoutModel)
    requires
        s.leads_to(t),
        forall|w: WindowId| #[trigger] tally(t.pool.items, w) <= tally(s.pool.items, w),
    ensures
        orders(s, t),
{
    broadcast use lemma_leads_gist;

    assert forall|w: WindowId| #[trigger] t.census(w) <= s.census(w) by {
        assert(tally(t.pool.items, w) <= tally(s.pool.items, w));
    }
}

/// Putting a view in place with its bookends keeps the layout in order.
pub proof fn lemma_rearrange_order(s: LayoutModel, mon: int, v: ViewModel, low: int, high: int)
    requires
        0 <= mon < s.monitors.len(),
    ensures
        orders(s, s.rearrange(mon, v, low, high)),
{
    broadcast use {
        lemma_with_view_leads,
        lemma_mint_into_leads,
        lemma_clean_up_leads,
        lemma_leads_gist,
        lemma_mint_into_load,
        lemma_clean_up_load,
    };

    let m = s.monitors[mon];
    let s1 = s.with_view(s.acts.active, m.output.id, v);
    assert(s.leads_to(s1));
    let s2 = if high == v.ids.len() - 1 {
        s1.add_workspace_bottom(mon)
    } else {
        s1
    };
    assert(s1.leads_to(s2));
    let s3 = if m.empty_workspace_above_first && low == 0 {
        s2.add_workspace_top(mon)
    } else {
        s2
    };
    assert(s2.leads_to(s3));
    let s4 = s3.settle(mon);
    assert(switches(s4.monitors) =~= switches(s3.monitors));
    let t = s4.clean_up(mon);
    assert(s4.leads_to(t));
    assert forall|w: WindowId| #[trigger] t.census(w) <= s.census(w) by {
        assert(tally(t.pool.items, w) <= tally(s4.pool.items, w));
        assert(tally(s3.pool.items, w) == tally(s2.pool.items, w));
        assert(tally(s2.pool.items, w) == tally(s1.pool.items, w));
    }
}

/// Reordering workspaces keeps the layout in order.
pub proof fn lemma_reorder_order(s: LayoutModel, mon: int, from: int, to: int)
    requires
        0 <= mon < s.monitors.len(),
    ensures
        orders(s, s.sink(mon)),
        orders(s, s.raise(mon)),
        orders(s, s.relocate(mon, from, to)),
{
    if let Some(v) = s.active_view(s.monitors[mon].output.id) {
        let a = v.active_position();
        let n = v.ids.len();
        let at = if to < n {
            to
        } else {
            n - 1
        };
        lemma_rearrange_order(s, mon, v.swap(a, a + 1), a, a + 1);
        lemma_rearrange_order(s, mon, v.swap(a, a - 1), a - 1, a);
        lemma_rearrange_order(s, mon, v.move_within(from, at), from, at);
        lemma_rearrange_order(s, mon, v.move_within(from, at), at, from);
    }
}

/// Taking a workspace off its monitor keeps the layout in order.
pub proof fn lemma_detach_order(s: LayoutModel, mon: int, idx: int)
    requires
        0 <= mon < s.monitors.len(),
    ensures
        orders(s, s.detach(mon, idx)),
{
    broadcast use {lemma_mint_into_load, lemma_clean_up_load, lemma_put_tally};

    lemma_detach_leads(s, mon, idx);
    let t = s.detach(mon, idx);
    assert forall|w: WindowId| #[trigger] tally(t.pool.items, w) <= tally(s.pool.items, w) by {
        let s1 = s.detach_prepared(mon, idx);
        assert(tally(s1.pool.items, w) == tally(s.pool.items, w));
    }
    lemma_leads_order(s, t);
}

/// Putting a workspace on a monitor keeps the layout in order.
pub proof fn lemma_attach_order(s: LayoutModel, mon: int, id: WorkspaceId, idx: int, activate: bool)
    requires
        0 <= mon < s.monitors.len(),
    ensures
        orders(s, s.attach(mon, id, idx, activate)),
{
    broadcast use {lemma_mint_into_load, lemma_clean_up_load, lemma_put_tally};

    lemma_attach_leads(s, mon, id, idx, activate);
    let t = s.attach(mon, id, idx, activate);
    assert forall|w: WindowId| #[trigger] tally(t.pool.items, w) <= tally(s.pool.items, w) by {
        let s1 = LayoutModel { pool: s.pool.bind(id, s.monitors[mon].output), ..s };
        assert(tally(s1.pool.items, w) == tally(s.pool.items, w));
        let s2 = s1.add_workspace_top(mon);
        assert(tally(s2.pool.items, w) == tally(s.pool.items, w));
    }
    lemma_leads_order(s, t);
}

/// Moving a workspace to another output keeps the layout in order.
pub proof fn lemma_transfer_order(s: LayoutModel, mon: int, idx: int, mon2: int)
    requires
        0 <= mon < s.monitors.len(),
        0 <= mon2 < s.monitors.len(),
    ensures
        orders(s, s.transfer(mon, idx, mon2)),
{
    broadcast use {lemma_put_tally, lemma_leads_gist, lemma_rehome_pool};

    let t = s.transfer(mon, idx, mon2);
    let from = s.monitors[mon].output.id;
    let to = s.monitors[mon2].output.id;
    if let Some(v) = s.active_view(from) {
        if idx < v.ids.len() && mon != mon2 {
            let id = v.ids[idx];
            let at = s.active_place(mon2).1 + 1;
            let activate = s.is_focused_place(mon, idx);
            let a = s.detach(mon, idx);
            lemma_detach_leads(s, mon, idx);
            lemma_detach_order(s, mon, idx);
            let b = LayoutModel { pool: a.pool.set_output(id, Some(to)), ..a };
            assert(orders(a, b));
            let c = b.attach(mon2, id, at, activate);
            lemma_attach_order(b, mon2, id, at, activate);
            lemma_rehome_leads(c, c.activities_of(id), id, from, to);
            let d = c.rehome(c.activities_of(id), id, from, to);
            assert(orders(c, d));
            assert(orders(d, t));
            lemma_orders_trans(s, a, b);
            lemma_orders_trans(s, b, c);
            lemma_orders_trans(s, c, d);
            lemma_orders_trans(s, d, t);
        }
    }
}

/// Naming a workspace keeps the layout in order.
pub proof fn lemma_naming_order(
    s: LayoutModel,
    name: Seq<char>,
    r: Option<crate::lookup::WorkspaceReference>,
)
    ensures
        orders(s, s.set_workspace_name(name, r)),
{
    broadcast use {
        lemma_put_tally,
        lemma_leads_gist,
        lemma_mint_into_leads,
        lemma_mint_into_load,
        lemma_normalize_leads,
        lemma_normalize_load,
    };

    let t = s.set_workspace_name(name, r);
    if s.named_workspace(name) is None {
        if let Some(id) = s.referred_or_active(r) {
            let s1 = LayoutModel { pool: s.pool.set_name(id, Some(name)), ..s };
            assert(orders(s, s1));
            if let Some(mon) = s1.monitor_holding(id) {
                lemma_find_from(s1.monitors, s1.held_on(id), 0);
                let m = s1.monitors[mon];
                let v = s1.active_view(m.output.id);
                let top = m.empty_workspace_above_first && v is Some && v.unwrap().ids.len() > 0
                    && v.unwrap().ids[0] == id;
                let bottom = v is Some && v.unwrap().ids.len() > 0 && v.unwrap().ids.last() == id;
                let s2 = if top {
                    s1.add_workspace_top(mon)
                } else {
                    s1
                };
                assert(s1.leads_to(s2));
                let s3 = if bottom {
                    s2.add_workspace_bottom(mon)
                } else {
                    s2
                };
                assert(s2.leads_to(s3));
                assert(s3.leads_to(t));
                assert forall|w: WindowId| #[trigger] t.census(w) <= s.census(w) by {
                    assert(tally(s2.pool.items, w) == tally(s1.pool.items, w));
                    assert(tally(s3.pool.items, w) == tally(s2.pool.items, w));
                    assert(s1.census(w) <= s.census(w));
                }
            }
        }
    }
}

/// Taking a workspace's name away keeps the layout in order.
pub proof fn lemma_unnaming_order(s: LayoutModel, id: WorkspaceId)
    ensures
        orders(s, s.unname(id)),
{
    broadcast use {
        lemma_put_tally,
        lemma_pool_remove_tally,
        lemma_leads_gist,
        lemma_tidy_leads,
        lemma_tidy_load,
    };

    let t = s.unname(id);
    if let Some(mon) = s.monitor_showing(id) {
        let a = LayoutModel { pool: s.pool.set_name(id, None), ..s };
        assert(orders(s, a));
        assert(a.leads_to(t));
        assert forall|w: WindowId| #[trigger] t.census(w) <= s.census(w) by {
            assert(a.census(w) <= s.census(w));
        }
    }
}

/// Focusing a workspace keeps the layout in order.
pub proof fn lemma_focus_order(s: LayoutModel, mon: int, idx: int)
    requires
        0 <= mon < s.monitors.len(),
    ensures
        orders(s, s.focus_on(mon, idx)),
{
    lemma_focus_on_leads(s, mon, idx);
    lemma_focus_on_pool(s, mon, idx);
    lemma_leads_order(s, s.focus_on(mon, idx));
}

/// Carrying a window over keeps the layout in order.
pub proof fn lemma_carry_order(
    s: LayoutModel,
    mon: int,
    from: int,
    which: Option<WindowId>,
    mon2: int,
    to: int,
    activate: ActivateWindow,
)
    requires
        0 <= mon2 < s.monitors.len(),
    ensures
        orders(s, s.carry(mon, from, which, mon2, to, activate)),
{
    broadcast use lemma_carry_load;

    lemma_carry_leads(s, mon, from, which, mon2, to, activate);
    lemma_leads_order(s, s.carry(mon, from, which, mon2, to, activate));
}

/// Tidying a monitor keeps the layout in order.
pub proof fn lemma_tidy_order(s: LayoutModel, mon: int)
    ensures
        orders(s, s.tidy(mon)),
{
    broadcast use lemma_tidy_load;

    lemma_tidy_leads(s, mon);
    lemma_leads_order(s, s.tidy(mon));
}

/// New bookends keep the layout in order.
pub proof fn lemma_normalize_order(s: LayoutModel)
    ensures
        orders(s, s.normalize()),
{
    broadcast use lemma_normalize_load;

    lemma_normalize_leads(s);
    lemma_leads_order(s, s.normalize());
}

/// Moving a window within its monitor keeps the layout in order.
pub proof fn lemma_shift_order(
    s: LayoutModel,
    mon: int,
    from: int,
    window: Option<WindowId>,
    idx: int,
    activate: ActivateWindow,
)
    requires
        0 <= mon < s.monitors.len(),
    ensures
        orders(s, s.shift_window(mon, from, window, idx, activate)),
{
    let n = s.view_len(mon);
    let to = if idx < n {
        idx
    } else {
        n - 1
    };
    let focus = activate.decided(window is None || s.active_window_on(mon) == window);
    let act = if focus {
        ActivateWindow::Yes
    } else {
        ActivateWindow::No
    };
    let a = s.carry(mon, from, window, mon, to, act);
    lemma_carry_order(s, mon, from, window, mon, to, act);
    lemma_tidy_order(a, mon);
    lemma_orders_trans(s, a, a.tidy(mon));
}

/// Moving a window to another output keeps the layout in order.
pub proof fn lemma_move_to_output_order(
    s: LayoutModel,
    window: Option<WindowId>,
    mon2: int,
    idx: Option<int>,
    activate: ActivateWindow,
)
    requires
        0 <= mon2 < s.monitors.len(),
    ensures
        orders(s, s.move_to_output(window, mon2, idx, activate)),
{
    if let Some((mon, from)) = s.command_place(window) {
        let to = match idx {
            Some(i) => i,
            None => s.active_place(mon2).1,
        };
        let focus = activate.decided(
            window is None || (mon == s.focused && s.active_window_on(mon) == window),
        );
        let act = if focus {
            ActivateWindow::Yes
        } else {
            ActivateWindow::No
        };
        let a = s.carry(mon, from, window, mon2, to, act);
        lemma_carry_order(s, mon, from, window, mon2, to, act);
        let b = LayoutModel {
            focused: if focus {
                mon2
            } else {
                a.focused
            },
            ..a
        };
        assert(orders(a, b));
        lemma_tidy_order(b, mon);
        lemma_orders_trans(s, a, b);
        lemma_orders_trans(s, b, b.tidy(mon));
    }
}

/// Moving a window by one workspace keeps the layout in order.
pub proof fn lemma_by_one_order(s: LayoutModel, focus: bool)
    requires
        s.pointed(),
    ensures
        orders(s, s.move_up(focus)),
        orders(s, s.move_down(focus)),
{
    if s.monitors.len() > 0 {
        let act = if focus {
            ActivateWindow::Yes
        } else {
            ActivateWindow::Smart
        };
        let mon = s.focused;
        let from = s.active_place(mon).1;
        lemma_carry_order(s, mon, from, None, mon, from - 1, act);
        lemma_carry_order(s, mon, from, None, mon, from + 1, act);
    }
}

/// Putting a window down adds it at most once.
pub proof fn lemma_place_order(s: LayoutModel, mon: int, idx: int, t: Tile, activate: ActivateWindow)
    requires
        0 <= mon < s.monitors.len(),
    ensures
        ({
            let r = s.place_resolved(mon, idx, t, activate, None, true);
            &&& gist(r) == gist(s)
            &&& forall|u: WindowId| #[trigger]
                r.census(u) <= s.census(u) + if u == t.window.id {
                    1int
                } else {
                    0
                }
        }),
{
    broadcast use {lemma_place_load, lemma_leads_gist};

    lemma_place_resolved_leads(s, mon, idx, t, activate, None, true);
}

/// Moving a window to a new workspace keeps the layout in order.
pub proof fn lemma_move_new_order(s: LayoutModel, focus: bool, below: int)
    requires
        s.pointed(),
    ensures
        orders(s, s.move_new(focus, below)),
{
    if s.monitors.len() > 0 {
        let mon = s.focused;
        let from = s.active_place(mon).1;
        let act = if focus {
            ActivateWindow::Yes
        } else {
            ActivateWindow::Smart
        };
        lemma_carry_new_order(s, mon, from + below, act);
    }
}

/// Moving a window to a new workspace of a monitor keeps the layout in order.
pub proof fn lemma_carry_new_order(s: LayoutModel, mon: int, idx: int, activate: ActivateWindow)
    requires
        0 <= mon < s.monitors.len(),
    ensures
        orders(s, s.carry_new(mon, idx, activate)),
{
    let n = s.view_len(mon);
    let from = s.active_place(mon).1;
    let t = s.carry_new(mon, idx, activate);
    if let Some(x) = s.workspace_at(mon, from) {
        if let Some(tile) = x.active_tile() {
            assert(x.tile(None) == Some(tile));
            lemma_tile_there(s, mon, from, None);
            let a = LayoutModel { pool: s.pool.remove_window(x.id, tile.window.id), ..s };
            let b = match crate::moves::insert_target(
                s.monitors[mon].empty_workspace_above_first,
                idx,
                n,
            ) {
                crate::moves::BookendResolution::InsertAt(i) => {
                    a.add_workspace_at(mon, i as int)
                },
                _ => a,
            };
            let at = match crate::moves::insert_target(
                s.monitors[mon].empty_workspace_above_first,
                idx,
                n,
            ) {
                crate::moves::BookendResolution::InsertAt(i) => i as int,
                crate::moves::BookendResolution::ReuseTop => 0,
                crate::moves::BookendResolution::ReuseTrailing => n - 1,
            };
            assert(gist(b) == gist(s) && b.monitors.len() == s.monitors.len()) by {
                broadcast use {lemma_mint_into_leads, lemma_leads_gist};

                if b != a {
                    assert(a.leads_to(b));
                }
            }
            assert(t == b.place_resolved(mon, at, alone(tile), activate, None, true));
            lemma_place_order(b, mon, at, alone(tile), activate);
            assert forall|w: WindowId| #[trigger] t.census(w) <= s.census(w) by {
                broadcast use {lemma_remove_window_load, lemma_mint_into_load};

                assert(tally(a.pool.items, w) == tally(s.pool.items, w) - if w == tile.window.id {
                    1int
                } else {
                    0
                });
                assert(tally(b.pool.items, w) == tally(a.pool.items, w));
                assert(b.moving == s.moving);
            }
        }
    }
}

/// Opening a workspace beside the focused one keeps the layout in order.
pub proof fn lemma_open_beside_order(s: LayoutModel, below: int)
    requires
        s.pointed(),
    ensures
        orders(s, s.open_beside(below)),
{
    broadcast use {
        lemma_mint_into_load,
        lemma_mint_into_leads,
        lemma_focus_on_leads,
        lemma_focus_on_pool,
        lemma_leads_gist,
    };

    let t = s.open_beside(below);
    assert forall|w: WindowId| #[trigger] t.census(w) <= s.census(w) by {
        assert(tally(t.pool.items, w) == tally(s.pool.items, w));
    }
}

/// Carrying a column over keeps the layout in order.
pub proof fn lemma_carry_column_order(
    s: LayoutModel,
    mon: int,
    from: int,
    mon2: int,
    to: int,
    activate: bool,
)
    requires
        0 <= mon2 < s.monitors.len(),
    ensures
        orders(s, s.carry_column(mon, from, mon2, to, activate)),
{
    broadcast use {lemma_carry_column_load, lemma_focus_on_leads, lemma_leads_gist};

    let t = s.carry_column(mon, from, mon2, to, activate);
    assert(gist(t) == gist(s));
    assert forall|w: WindowId| #[trigger] t.census(w) <= s.census(w) by {
        assert(tally(t.pool.items, w) <= tally(s.pool.items, w));
    }
}

/// Moving a column by one workspace keeps the layout in order.
pub proof fn lemma_columns_by_one_order(s: LayoutModel, activate: bool)
    requires
        s.pointed(),
    ensures
        orders(s, s.column_up(activate)),
        orders(s, s.column_down(activate)),
{
    if s.monitors.len() > 0 {
        let mon = s.focused;
        let from = s.active_place(mon).1;
        let smart = if activate {
            ActivateWindow::Yes
        } else {
            ActivateWindow::Smart
        };
        lemma_normalize_order(s);
        lemma_carry_order(s, mon, from, None, mon, from - 1, smart);
        lemma_carry_order(s, mon, from, None, mon, from + 1, smart);
        lemma_carry_column_order(s, mon, from, mon, from - 1, activate);
        lemma_carry_column_order(s, mon, from, mon, from + 1, activate);
        let a = s.shift_column(mon, from - 1, activate, smart);
        let b = s.shift_column(mon, from + 1, activate, smart);
        lemma_normalize_order(a);
        lemma_normalize_order(b);
        lemma_orders_trans(s, a, a.normalize());
        lemma_orders_trans(s, b, b.normalize());
    }
}

/// Moving a column within its monitor keeps the layout in order.
pub proof fn lemma_columns_within_order(s: LayoutModel, idx: int, activate: bool)
    requires
        s.pointed(),
        s.monitors.len() > 0,
    ensures
        orders(s, s.move_column_to_workspace(idx, activate)),
{
    let mon = s.focused;
    let from = s.active_place(mon).1;
    let n = s.view_len(mon);
    let to = if idx < n {
        idx
    } else {
        n - 1
    };
    let smart = if activate {
        ActivateWindow::Smart
    } else {
        ActivateWindow::No
    };
    let a = s.shift_window(mon, from, None, idx, smart);
    let b = s.carry_column(mon, from, mon, to, activate);
    lemma_shift_order(s, mon, from, None, idx, smart);
    lemma_carry_column_order(s, mon, from, mon, to, activate);
    lemma_normalize_order(s);
    lemma_normalize_order(a);
    lemma_normalize_order(b);
    lemma_orders_trans(s, a, a.normalize());
    lemma_orders_trans(s, b, b.normalize());
}

/// Moving a column to another output keeps the layout in order.
pub proof fn lemma_columns_across_order(s: LayoutModel, mon2: int, idx: Option<int>, activate: bool)
    requires
        0 <= mon2 < s.monitors.len(),
    ensures
        orders(s, s.move_column_to_output(mon2, idx, activate)),
{
    let mon = s.focused;
    let from = s.active_place(mon).1;
    let n = s.view_len(mon2);
    let want = match idx {
        Some(i) => i,
        None => s.active_place(mon2).1,
    };
    let to = if want < n {
        want
    } else {
        n - 1
    };
    lemma_move_to_output_order(s, None, mon2, None, ActivateWindow::Smart);
    let a = s.carry_column(mon, from, mon2, to, activate);
    lemma_carry_column_order(s, mon, from, mon2, to, activate);
    let b = LayoutModel {
        focused: if activate {
            mon2
        } else {
            a.focused
        },
        ..a
    };
    assert(orders(a, b));
    lemma_normalize_order(b);
    lemma_orders_trans(s, a, b);
    lemma_orders_trans(s, b, b.normalize());
}

/// Adding a column of windows that are not there keeps each in one place.
pub proof fn lemma_add_column_order(
    s: LayoutModel,
    mon: int,
    idx: int,
    column: Seq<Tile>,
    head: Option<WindowId>,
    activate: bool,
)
    requires
        0 <= mon < s.monitors.len(),
        forall|w: WindowId| s.census(w) + #[trigger] tiles_of(column, w) <= 1,
    ensures
        s.orderly() ==> s.add_column(mon, idx, column, head, activate).orderly(),
{
    broadcast use {lemma_focus_on_leads, lemma_leads_gist};

    let a = s.put_column(mon, idx, column, head, activate);
    let b = LayoutModel {
        focused: if activate {
            mon
        } else {
            a.focused
        },
        ..a
    };
    assert(gist(b) == gist(s));
    lemma_normalize_order(b);
    let t = b.normalize();
    if s.orderly() {
        let z = LayoutModel { pool: PoolModel { items: Seq::empty(), ..b.pool }, moving: None, ..b };
        assert forall|w: WindowId| #[trigger] z.census(w) <= s.census(w) by {
            lemma_tally(s.pool.items, w);
        }
        lemma_order(s, z);
        assert forall|w: WindowId| #[trigger] b.census(w) <= 1 by {
            lemma_put_column_load(s, mon, idx, column, head, activate, w);
            assert(s.census(w) + tiles_of(column, w) <= 1);
        }
        assert(b.orderly()) by {
            assert forall|m: int| 0 <= m < b.monitors.len() implies b.monitor_agrees(
                #[trigger] b.monitors[m],
            ) by {
                assert(z.monitor_agrees(z.monitors[m]));
            }
            assert(z.slides_agree());
        }
        lemma_orders(b, t);
    }
}

/// Moving a window to another workspace keeps the layout in order.
pub proof fn lemma_move_within_order(
    s: LayoutModel,
    window: Option<WindowId>,
    idx: int,
    activate: ActivateWindow,
)
    requires
        s.pointed(),
    ensures
        orders(s, s.move_to_workspace(window, idx, activate)),
{
    if let Some((mon, from)) = s.command_place(window) {
        if let Some(w) = window {
            lemma_find_from(s.monitors, s.showing_window(w), 0);
        }
        lemma_shift_order(s, mon, from, window, idx, activate);
    }
}

/// Putting a window on a workspace adds it at most once.
pub proof fn lemma_add_to_load(
    s: LayoutModel,
    id: WorkspaceId,
    t: Tile,
    activate: ActivateWindow,
    beside: Option<WindowId>,
    u: WindowId,
)
    ensures
        tally(s.add_to(id, t, activate, beside).pool.items, u) <= tally(s.pool.items, u) + if u
            == t.window.id {
            1int
        } else {
            0
        },
{
    broadcast use {lemma_add_tile_load, lemma_put_tally};

}

/// Moving a window out of sight keeps the layout in order.
pub proof fn lemma_move_to_pool_order(
    s: LayoutModel,
    window: Option<WindowId>,
    id: WorkspaceId,
    activate: ActivateWindow,
)
    requires
        s.pool_move(window, id.0) is Ok,
        s.pool_move(window, id.0)->Ok_0 is MovedDormant,
    ensures
        orders(s, s.move_to_pool(window, id, activate)),
{
    broadcast use lemma_remove_window_load;

    let (mon, from) = s.pool_source(window).unwrap();
    let x = s.workspace_at(mon, from).unwrap();
    let tile = x.tile(window).unwrap();
    lemma_tile_there(s, mon, from, window);
    let a = LayoutModel { pool: s.pool.remove_window(x.id, tile.window.id), ..s };
    let act = if activate is No {
        ActivateWindow::No
    } else {
        ActivateWindow::Yes
    };
    let b = a.add_to(id, alone(tile), act, None);
    assert(orders(s, b)) by {
        assert forall|w: WindowId| #[trigger] b.census(w) <= s.census(w) by {
            lemma_add_to_load(a, id, alone(tile), act, None, w);
            assert(tally(a.pool.items, w) == tally(s.pool.items, w) - if w == tile.window.id {
                1int
            } else {
                0
            });
        }
    }
    let c = b.normalize();
    lemma_normalize_order(b);
    lemma_tidy_order(c, mon);
    lemma_orders_trans(s, b, c);
    lemma_orders_trans(s, c, c.tidy(mon));
}

/// Activating a window keeps the layout in order.
pub proof fn lemma_activate_order(s: LayoutModel, w: WindowId)
    ensures
        orders(s, s.activate_window(w)),
{
    broadcast use {lemma_put_tally, lemma_focus_on_leads, lemma_focus_on_pool, lemma_leads_gist};

    lemma_find_from(s.monitors, s.showing_window(w), 0);
    if !s.is_dragged(w) {
        if let Some((mon, idx)) = s.window_place(w) {
            let v = s.active_view(s.monitors[mon].output.id).unwrap();
            let a = LayoutModel {
                pool: s.pool.activate_window(v.ids[idx], w),
                focused: mon,
                ..s
            };
            assert(orders(s, a));
            lemma_focus_order(a, mon, idx);
            lemma_orders_trans(s, a, a.focus_on(mon, idx));
        }
    }
}

/// A layout in order stays so when a window is added that is not there.
pub proof fn lemma_grown_order(s: LayoutModel, t: LayoutModel, w: WindowId)
    requires
        gist(t) == gist(s),
        s.orderly(),
        s.census(w) <= 0,
        forall|u: WindowId| #[trigger]
            t.census(u) <= s.census(u) + if u == w {
                1int
            } else {
                0
            },
    ensures
        t.orderly(),
{
    let z = LayoutModel { pool: PoolModel { items: Seq::empty(), ..t.pool }, moving: None, ..t };
    assert forall|u: WindowId| #[trigger] z.census(u) <= s.census(u) by {
        lemma_tally(s.pool.items, u);
    }
    lemma_order(s, z);
    assert forall|u: WindowId| #[trigger] t.census(u) <= 1 by {
        assert(s.census(u) <= 1);
    }
    assert forall|m: int| 0 <= m < t.monitors.len() implies t.monitor_agrees(
        #[trigger] t.monitors[m],
    ) by {
        assert(z.monitor_agrees(z.monitors[m]));
    }
    assert(z.slides_agree());
}

/// Parking a window adds it at most once.
pub proof fn lemma_park_load(s: LayoutModel, t: Tile, target: AddWindowTarget, activate: ActivateWindow, u: WindowId)
    ensures
        tally(s.park_window(t, target, activate).pool.items, u) <= tally(s.pool.items, u) + if u
            == t.window.id {
            1int
        } else {
            0
        },
{
    broadcast use lemma_push_tally;

    let loose = s.ensure_parked();
    assert(tally(loose.pool.items, u) == tally(s.pool.items, u));
    lemma_add_to_load(loose, loose.parked[0], t, activate, None, u);
    if let AddWindowTarget::Workspace(id) = target {
        lemma_add_to_load(s, id, t, activate, None, u);
    }
    if let AddWindowTarget::NextTo(w) = target {
        if let Some(i) = crate::search::find(s.parked, crate::windows::id_having(s.pool, w)) {
            lemma_add_to_load(s, s.parked[i], t, activate, Some(w), u);
        }
    }
}

/// Adding a window that is not there keeps the layout in order.
pub proof fn lemma_add_order(
    s: LayoutModel,
    t: Tile,
    target: AddWindowTarget,
    activate: ActivateWindow,
)
    requires
        s.coherent(),
        s.pointed(),
        s.census(t.window.id) <= 0,
    ensures
        s.orderly() ==> s.add_window(t, target, activate).orderly(),
{
    broadcast use {
        lemma_place_load,
        lemma_place_resolved_leads,
        lemma_normalize_leads,
        lemma_normalize_load,
        lemma_leads_gist,
    };

    let r = s.add_window(t, target, activate);
    if s.monitors.len() > 0 {
        crate::upholding::lemma_add_place(s, target);
    }
    assert(gist(r) == gist(s));
    assert forall|u: WindowId| #[trigger]
        r.census(u) <= s.census(u) + if u == t.window.id {
            1int
        } else {
            0
        } by {
        lemma_park_load(s, t, target, activate, u);
        if let AddWindowTarget::Workspace(id) = target {
            lemma_add_to_load(s, id, t, activate, None, u);
        }
        assert(tally(r.pool.items, u) <= tally(s.pool.items, u) + if u == t.window.id {
            1int
        } else {
            0
        });
    }
    if s.orderly() {
        lemma_grown_order(s, r, t.window.id);
    }
}

/// Ending a grab keeps the layout in order.
pub proof fn lemma_release_order(s: LayoutModel)
    ensures
        gist(s.release()) == gist(s),
        forall|u: WindowId| #[trigger] tally(s.release().pool.items, u) == tally(s.pool.items, u),
        orders(s, s.release()),
{
    broadcast use lemma_lock_load;

    let r = s.release();
    assert(switches(r.monitors) =~= switches(s.monitors));
    assert forall|w: WindowId| #[trigger] r.census(w) <= s.census(w) by {
        assert(tally(r.pool.items, w) == tally(s.pool.items, w));
    }
}

/// A window taken off its workspace is there once less.
pub proof fn lemma_picked_off_load(s: LayoutModel, w: WindowId, u: WindowId)
    ensures
        tally(s.picked_off(w).pool.items, u) <= tally(s.pool.items, u),
        s.pool.wf() && u == w && tally(s.pool.items, w) > 0 ==> tally(
            s.picked_off(w).pool.items,
            u,
        ) < tally(s.pool.items, u),
        gist(s.picked_off(w)) == gist(s),
        s.picked_off(w).moving == s.moving,
{
    broadcast use {
        lemma_remove_window_load,
        lemma_pool_remove_tally,
        lemma_destroy_load,
        lemma_with_view_leads,
        lemma_leads_gist,
    };

    lemma_find_from(s.monitors, s.showing_window(w), 0);
    if s.pool.wf() && tally(s.pool.items, w) > 0 {
        lemma_tallied(s.pool, w);
    }
    if let Some((mon, idx)) = s.window_place(w) {
        let v = s.active_view(s.monitors[mon].output.id).unwrap();
        lemma_find_from(v.ids, crate::windows::id_having(s.pool, w), 0);
        let id = v.ids[idx];
        assert(s.pool.get(id) is Some && s.pool.get(id).unwrap().has_window(w));
        let s1 = LayoutModel { pool: s.pool.remove_window(id, w), ..s };
        assert(gist(s.take_shown(mon, idx, w)) == gist(s));
        assert(tally(s.take_shown(mon, idx, w).pool.items, u) <= tally(s1.pool.items, u));
    } else {
        lemma_find_from(s.parked, crate::windows::id_having(s.pool, w), 0);
        if let Some(i) = crate::search::find(s.parked, crate::windows::id_having(s.pool, w)) {
            let id = s.parked[i];
            assert(s.pool.get(id) is Some && s.pool.get(id).unwrap().has_window(w));
        } else if let Some(id) = s.pool.first(crate::lookup::having(w)) {
            let a = LayoutModel { pool: s.pool.remove_window(id, w), ..s };
            crate::reclaim::lemma_destroy_leads(a, id);
            assert(tally(s.take_hidden(id, w).pool.items, u) <= tally(a.pool.items, u));
        }
    }
}

/// Taking a window out keeps the layout in order, and the window is there once less.
pub proof fn lemma_take_order(s: LayoutModel, w: WindowId)
    ensures
        orders(s, s.take_window(w)),
        s.pool.wf() && s.census(w) > 0 ==> s.take_window(w).census(w) < s.census(w),
        !s.take_window(w).is_dragged(w),
{
    let t = s.take_window(w);
    lemma_release_order(s);
    if s.is_dragged(w) {
        assert(tally(t.pool.items, w) == tally(s.pool.items, w));
    } else {
        let a = s.ungrabbed(w);
        assert(t == a.picked_off(w));
        assert(orders(s, a));
        assert(tally(a.pool.items, w) == tally(s.pool.items, w));
        lemma_picked_off_load(a, w, w);
        assert forall|u: WindowId| #[trigger] t.census(u) <= s.census(u) by {
            lemma_picked_off_load(a, w, u);
            assert(a.census(u) <= s.census(u));
        }
        crate::placing::lemma_lock_all(s.pool, false);
        crate::coherence::lemma_alike(s.pool, s.pool.lock_all(false));
    }
}

/// A window whose tile is found is on some workspace.
pub proof fn lemma_tile_of(s: LayoutModel, w: WindowId)
    requires
        s.tile_of(w) is Some,
    ensures
        s.tile_of(w).unwrap().window.id == w,
        !s.is_dragged(w) ==> tally(s.pool.items, w) > 0,
{
    if !s.is_dragged(w) {
        let id = match s.window_place(w) {
            Some((mon, idx)) => s.active_view(s.monitors[mon].output.id).unwrap().ids[idx],
            None => match crate::search::find(s.parked, crate::windows::id_having(s.pool, w)) {
                Some(i) => s.parked[i],
                None => s.pool.first(crate::lookup::having(w)).unwrap(),
            },
        };
        lemma_get(s.pool, id);
        let ws = s.pool.get(id).unwrap();
        lemma_find_from(ws.tiles, crate::workspace::shows(w), 0);
        let p = ws.window_pos(w).unwrap();
        assert(ws.tiles[p].window.id == w);
        lemma_tiles_of(ws.tiles, w);
        let i = s.pool.pos(id).unwrap();
        assert(tiles_of(s.pool.items[i].tiles, w) > 0);
        lemma_tally(s.pool.items, w);
    }
}

/// A window that is on some workspace is found.
pub proof fn lemma_tallied(p: PoolModel, w: WindowId)
    requires
        p.wf(),
        tally(p.items, w) > 0,
    ensures
        p.first(crate::lookup::having(w)) is Some,
        ({
            let id = p.first(crate::lookup::having(w)).unwrap();
            p.get(id) is Some && p.get(id).unwrap().has_window(w)
        }),
{
    lemma_tally(p.items, w);
    let i = choose|i: int| 0 <= i < p.items.len() && tiles_of((#[trigger] p.items[i]).tiles, w) > 0;
    lemma_tiles_of(p.items[i].tiles, w);
    let ts = p.items[i].tiles;
    let k = choose|k: int| 0 <= k < ts.len() && (#[trigger] ts[k]).window.id == w;
    lemma_find_from(ts, crate::workspace::shows(w), 0);
    assert(crate::workspace::shows(w)(ts[k]));
    assert(p.items[i].has_window(w));
    lemma_find_from(p.items, crate::lookup::having(w), 0);
    assert(crate::lookup::having(w)(p.items[i]));
    let j = crate::search::find(p.items, crate::lookup::having(w)).unwrap();
    crate::coherence::lemma_pos_of(p, j);
}

/// Dragging a window that is there keeps the layout in order.
pub proof fn lemma_drag_order(s: LayoutModel, w: WindowId, m: DragMotion)
    requires
        s.pool.wf(),
        s.moving == Some((InteractiveMoveState::Starting { window_id: w })) ==> (LayoutModel {
            moving: None,
            ..s
        }).tile_of(w) is Some,
    ensures
        orders(s, s.update_move(w, m)),
{
    broadcast use lemma_lock_load;

    let t = s.update_move(w, m);
    if let Some(InteractiveMoveState::Starting { window_id }) = s.moving {
        if window_id == w && (s.floats_at_home(w) || m.far) {
            let a = LayoutModel { moving: None, ..s };
            let b = a.take_window(w);
            lemma_tile_of(a, w);
            lemma_take_order(a, w);
            assert(gist(t) == gist(b));
            assert forall|u: WindowId| #[trigger] t.census(u) <= s.census(u) by {
                assert(b.census(u) <= a.census(u));
                assert(tally(t.pool.items, u) == tally(b.pool.items, u));
                assert(b.moving is None) by {
                    assert(a.ungrabbed(w) == a);
                    lemma_picked_off_load(a, w, u);
                }
            }
        }
    }
}

/// Letting a window go where it was dragged adds it at most once.
pub proof fn lemma_land_load(s: LayoutModel, mon: int, idx: int, t: Tile, column: Option<WindowId>, u: WindowId)
    requires
        0 <= mon < s.monitors.len(),
    ensures
        tally(s.land(mon, idx, t, column).pool.items, u) <= tally(s.pool.items, u) + if u
            == t.window.id {
            1int
        } else {
            0
        },
        gist(s.land(mon, idx, t, column)) == gist(s),
        s.land(mon, idx, t, column).moving == s.moving,
{
    broadcast use {
        lemma_add_tile_load,
        lemma_put_tally,
        lemma_place_load,
        lemma_place_resolved_leads,
        lemma_focus_on_leads,
        lemma_focus_on_pool,
        lemma_leads_gist,
    };

}

/// Dropping a window adds it at most once.
pub proof fn lemma_drop_load(s: LayoutModel, d: crate::layout::InteractiveMoveData, p: DropPlace, u: WindowId)
    requires
        s.can_drop(d, p),
    ensures
        tally(s.drop_at(d, p).pool.items, u) <= tally(s.pool.items, u) + if u == d.tile.window.id {
            1int
        } else {
            0
        },
        gist(s.drop_at(d, p)) == gist(s),
        s.drop_at(d, p).moving == s.moving,
{
    broadcast use {lemma_push_tally, lemma_mint_into_load, lemma_mint_into_leads, lemma_leads_gist};

    let mon = s.drop_monitor(d);
    let n = s.view_len(mon);
    let column = if d.tile.floating {
        None
    } else {
        p.column
    };
    if s.monitors.len() == 0 {
        let a = s.ensure_parked();
        assert(tally(a.pool.items, u) == tally(s.pool.items, u));
        lemma_add_to_load(a, a.parked[0], alone(d.tile), ActivateWindow::Yes, None, u);
    } else if s.monitor_pos(d.output.id) is None {
        lemma_land_load(s, mon, 0, d.tile, column, u);
    } else {
        match p.workspace {
            crate::interactive::InsertWorkspace::Existing(id) => {
                let at = s.active_view(s.monitors[mon].output.id).unwrap().position_of(id).unwrap();
                lemma_land_load(s, mon, at, d.tile, column, u);
            },
            crate::interactive::InsertWorkspace::NewAt(at) => {
                match crate::moves::insert_target(
                    s.monitors[mon].empty_workspace_above_first,
                    at as int,
                    n,
                ) {
                    crate::moves::BookendResolution::ReuseTop => {
                        lemma_land_load(s, mon, 0, d.tile, None, u);
                    },
                    crate::moves::BookendResolution::ReuseTrailing => {
                        lemma_land_load(s, mon, n - 1, d.tile, None, u);
                    },
                    crate::moves::BookendResolution::InsertAt(i) => {
                        let a = s.add_workspace_at(mon, i as int);
                        assert(s.leads_to(a));
                        assert(tally(a.pool.items, u) == tally(s.pool.items, u));
                        lemma_land_load(a, mon, i as int, d.tile, None, u);
                    },
                }
            },
        }
    }
}

/// Letting go of a dragged window keeps the layout in order.
pub proof fn lemma_end_move_order(s: LayoutModel, w: WindowId, p: DropPlace)
    requires
        match s.moving {
            Some(InteractiveMoveState::Moving(d)) => d.tile.window.id == w ==> s.let_go(d).can_drop(
                d,
                p,
            ),
            _ => true,
        },
    ensures
        orders(s, s.end_move(w, p)),
{
    broadcast use lemma_lock_load;

    let t = s.end_move(w, p);
    lemma_release_order(s);
    if let Some(InteractiveMoveState::Moving(d)) = s.moving {
        if d.tile.window.id == w {
            let a = s.let_go(d);
            assert(switches(a.monitors) =~= switches(s.monitors));
            assert(gist(a) == gist(s));
            lemma_drop_load(a, d, p, w);
            assert forall|u: WindowId| #[trigger] t.census(u) <= s.census(u) by {
                lemma_drop_load(a, d, p, u);
                assert(tally(a.pool.items, u) == tally(s.pool.items, u));
            }
        }
    }
}

/// Letting a swipe go keeps the layout in order.
pub proof fn lemma_end_swipe_order(s: LayoutModel, mon: int, idx: int)
    requires
        0 <= mon < s.monitors.len(),
    ensures
        orders(s, s.end_swipe(mon, idx)),
{
    broadcast use {lemma_with_view_leads, lemma_leads_gist};

    let t = s.end_swipe(mon, idx);
    assert(t.pool == s.pool);
    if let Some(v) = s.active_view(s.monitors[mon].output.id) {
        let a = s.with_view(s.acts.active, s.monitors[mon].output.id, v.activate(idx));
        assert(s.leads_to(a));
    }
    assert(switches(t.monitors) =~= switches(s.monitors));
    assert forall|w: WindowId| #[trigger] t.census(w) <= s.census(w) by {
        assert(tally(t.pool.items, w) == tally(s.pool.items, w));
    }
}

/// Swiping keeps the layout in order.
pub proof fn lemma_swipe_order(s: LayoutModel, mon: int, reached: Reached, is_touchpad: bool)
    requires
        0 <= mon < s.monitors.len(),
    ensures
        orders(s, s.swipe(mon, reached, is_touchpad)),
{
    let t = s.swipe(mon, reached, is_touchpad);
    assert(switches(t.monitors) =~= switches(s.monitors));
    assert forall|w: WindowId| #[trigger] t.census(w) <= s.census(w) by {
        assert(tally(t.pool.items, w) == tally(s.pool.items, w));
    }
}

/// Beginning a swipe keeps the layout in order.
pub proof fn lemma_begin_swipe_order(
    s: LayoutModel,
    out: OutputId,
    is_touchpad: bool,
    reached: Reached,
    landings: Seq<usize>,
    n: int,
)
    requires
        n <= s.monitors.len(),
    ensures
        orders(s, s.begin_swipe(out, is_touchpad, reached, landings, n)),
    decreases n,
{
    if n > 0 {
        lemma_begin_swipe_order(s, out, is_touchpad, reached, landings, n - 1);
        let a = s.begin_swipe(out, is_touchpad, reached, landings, n - 1);
        assert(a.monitors.len() == switches(a.monitors).len());
        assert(s.monitors.len() == switches(s.monitors).len());
        lemma_swipe_order(a, n - 1, reached, is_touchpad);
        lemma_end_swipe_order(a, n - 1, landings[n - 1] as int);
        lemma_orders_trans(s, a, s.begin_swipe(out, is_touchpad, reached, landings, n));
    }
}

/// Looking after workspaces moves no window.
pub proof fn lemma_attend_load(
    p: PoolModel,
    ids: Seq<WorkspaceId>,
    active: int,
    lock: Option<bool>,
    overview: bool,
    u: WindowId,
)
    ensures
        tally(p.attend(ids, active, lock, overview).items, u) == tally(p.items, u),
    decreases ids.len(),
{
    broadcast use lemma_put_tally;

    if ids.len() > 0 {
        lemma_attend_load(p, ids.drop_last(), active, lock, overview, u);
    }
}

/// Stopping swipes moves no window.
pub proof fn lemma_still_load(p: PoolModel, ids: Seq<WorkspaceId>, u: WindowId)
    ensures
        tally(p.still(ids).items, u) == tally(p.items, u),
    decreases ids.len(),
{
    broadcast use lemma_put_tally;

    if ids.len() > 0 {
        lemma_still_load(p, ids.drop_last(), u);
    }
}

/// Looking after the workspaces of monitors keeps the layout in order.
pub proof fn lemma_attend_order(s: LayoutModel, n: int)
    requires
        n <= s.monitors.len(),
    ensures
        orders(s, s.attend(n)),
        s.attend(n).monitors.len() == s.monitors.len(),
    decreases n,
{
    if n > 0 {
        lemma_attend_order(s, n - 1);
        let a = s.attend(n - 1);
        let t = s.attend(n);
        assert(switches(t.monitors) =~= switches(a.monitors));
        assert forall|w: WindowId| #[trigger] t.census(w) <= s.census(w) by {
            assert(a.census(w) <= s.census(w));
            let m = a.monitors[n - 1];
            if let Some(v) = a.active_view(m.output.id) {
                lemma_attend_load(
                    a.pool,
                    v.ids,
                    v.active_position(),
                    s.drag_lock(),
                    s.overview_open,
                    w,
                );
            }
        }
    }
}

/// Refreshing keeps the layout in order.
pub proof fn lemma_refresh_order(s: LayoutModel, is_active: bool)
    ensures
        orders(s, s.refresh(is_active)),
{
    let n = s.monitors.len() as int;
    let a = s.attend(n);
    let t = s.refresh(is_active);
    lemma_attend_order(s, n);
    assert forall|w: WindowId| #[trigger] t.census(w) <= s.census(w) by {
        lemma_still_load(a.pool, a.parked, w);
        assert(a.census(w) <= s.census(w));
    }
}

/// Opening or closing the overview keeps the layout in order.
pub proof fn lemma_overview_order(s: LayoutModel, open: bool, progress: crate::layout::OverviewProgress)
    ensures
        s.orderly() ==> s.disarm().show_overview(open, progress).orderly(),
{
    let t = s.disarm().show_overview(open, progress);
    if s.orderly() {
        assert forall|w: WindowId| #[trigger] t.census(w) <= 1 by {
            assert(s.census(w) <= 1);
        }
    }
}

/// Resting a drag over something keeps the layout in order.
pub proof fn lemma_hold_order(s: LayoutModel, scrolled: bool, target: Option<DndHoldTarget>, now: u64)
    requires
        s.orderly(),
    ensures
        s.advance_hold(scrolled, target, now).orderly(),
{
    broadcast use lemma_put_tally;

    let t = s.advance_hold(scrolled, target, now);
    if let Some(out) = s.drag_output() {
        if let Some(d) = s.dnd {
            lemma_find_from(s.monitors, on_output(out), 0);
            if let Some(mon) = s.monitor_pos(out) {
                let idle = LayoutModel {
                    dnd: Some(crate::layout::DndData { output: d.output, hold: None }),
                    ..s
                };
                assert(orders(s, idle));
                lemma_orders(s, idle);
                if !scrolled && target is Some {
                    let h = LayoutModel::held(d.hold, target.unwrap(), now);
                    let kept = LayoutModel {
                        dnd: Some(crate::layout::DndData { output: d.output, hold: Some(h) }),
                        ..s
                    };
                    assert(orders(s, kept));
                    lemma_orders(s, kept);
                    if let Some(idx) = idle.hold_place(mon, target.unwrap()) {
                        let m = idle.monitors[mon];
                        let s1 = match target.unwrap() {
                            DndHoldTarget::Window(w) => LayoutModel {
                                pool: idle.pool.activate_window(
                                    idle.active_view(m.output.id).unwrap().ids[idx],
                                    w,
                                ),
                                ..idle
                            },
                            DndHoldTarget::Workspace(_) => idle,
                        };
                        let s2 = LayoutModel {
                            monitors: s1.monitors.update(
                                mon,
                                crate::monitor::Monitor { dnd_scroll: false, ..m },
                            ),
                            ..s1
                        };
                        assert(switches(s2.monitors) =~= switches(idle.monitors));
                        assert(orders(idle, s2));
                        lemma_orders(idle, s2);
                        let s3 = s2.focus_on(mon, idx);
                        lemma_focus_order(s2, mon, idx);
                        lemma_orders(s2, s3);
                        let s4 = LayoutModel { focused: mon, ..s3 };
                        assert(orders(s3, s4));
                        lemma_orders(s3, s4);
                        lemma_overview_order(
                            s4,
                            false,
                            crate::layout::OverviewProgress::Animation,
                        );
                    }
                }
            }
        }
    }
}

/// Ending what has arrived keeps the layout in order.
pub proof fn lemma_end_arrived_order(s: LayoutModel, slid: Seq<bool>, arrived: Seq<bool>, n: int)
    requires
        n <= s.monitors.len(),
        s.orderly(),
    ensures
        s.end_arrived(slid, arrived, n).orderly(),
        s.end_arrived(slid, arrived, n).monitors.len() == s.monitors.len(),
    decreases n,
{
    broadcast use lemma_clean_up_load;

    if n > 0 {
        lemma_end_arrived_order(s, slid, arrived, n - 1);
        let a = s.end_arrived(slid, arrived, n - 1);
        let b = if slid[n - 1] {
            a.end_slide(n - 1)
        } else {
            a
        };
        assert(b.orderly()) by {
            assert forall|w: WindowId| #[trigger] b.census(w) <= 1 by {
                assert(a.census(w) <= 1);
            }
            assert forall|m: int| 0 <= m < b.monitors.len() implies b.monitor_agrees(
                #[trigger] b.monitors[m],
            ) by {
                assert(a.monitor_agrees(a.monitors[m]));
            }
            assert forall|i: int, j: int|
                0 <= i < j < b.monitors.len() && (#[trigger] b.monitors[i]).activity_switch is Some
                    && (
                #[trigger] b.monitors[j]).activity_switch is Some implies b.monitors[i].activity_switch
                == b.monitors[j].activity_switch by {
                assert(a.monitors[i].activity_switch is Some);
                assert(a.monitors[j].activity_switch is Some);
            }
        }
        let c = b.settle(n - 1);
        assert(switches(c.monitors) =~= switches(b.monitors));
        assert(orders(b, c));
        lemma_orders(b, c);
        lemma_clean_up_leads(c, n - 1);
        lemma_leads_order(c, c.clean_up(n - 1));
        lemma_orders(c, c.clean_up(n - 1));
    }
}

/// A frame keeps the layout in order.
pub proof fn lemma_advance_order(
    s: LayoutModel,
    scrolled: bool,
    target: Option<DndHoldTarget>,
    now: u64,
    opened: bool,
    slid: Seq<bool>,
    arrived: Seq<bool>,
)
    ensures
        s.orderly() ==> s.advance(scrolled, target, now, opened, slid, arrived).orderly(),
{
    if s.orderly() {
        let a = s.advance_hold(scrolled, target, now);
        lemma_hold_order(s, scrolled, target, now);
        let b = if opened {
            a.settle_overview()
        } else {
            a
        };
        assert(orders(a, b));
        lemma_orders(a, b);
        lemma_end_arrived_order(b, slid, arrived, b.monitors.len() as int);
    }
}

} // verus!
