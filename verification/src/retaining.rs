//! What is grabbed or bookmarked stays in the layout.

use vstd::prelude::*;

use crate::bookends::{lemma_mint_into_leads, lemma_normalize_leads};
use crate::census::{
    lemma_mended_load, lemma_pool_remove_tally, lemma_put_tally, lemma_steady_load, same_load, tally,
    tiles_of,
};
use crate::ids::{ActivityId, OutputId, WindowId, WorkspaceId};
use crate::interactive::DragMotion;
use crate::layout::{InteractiveMoveState, LayoutModel};
use crate::load::{
    lemma_add_tile_load, lemma_ensure_all_load, lemma_focus_on_pool, lemma_mint_into_load,
    lemma_normalize_load, lemma_remove_window_load, lemma_tile_there,
};
use crate::materialize::lemma_ensure_all_leads;
use crate::mending::lemma_mended_leads;
use crate::moves::{alone, lemma_carry_leads, lemma_tidy_leads};
use crate::pool::PoolModel;
use crate::reclaim::lemma_with_view_leads;
use crate::search::lemma_find_from;
use crate::soundness::law_counted_windows_are_there;
use crate::steadying::{
    lemma_clean_up_steady, lemma_mint_into_steady, lemma_steady_acts, lemma_steady_trans,
    lemma_with_view_steady, steady,
};
use crate::view::ViewModel;
use crate::windows::{lemma_focus_on_leads, ActivateWindow, AddWindowTarget};
use crate::workspace::{Output, Tile};

verus! {

impl LayoutModel {
    /// What is grabbed, bookmarked or to be returned to is in the layout, and the bookmarks are
    /// distinct.
    pub open spec fn mindful(self) -> bool {
        self.move_sound() && self.bookmarks_sound()
    }
}

/// `t` has the same drag and bookmarks as `s` and every window at least as often.
pub open spec fn retains(s: LayoutModel, t: LayoutModel) -> bool {
    &&& t.moving == s.moving
    &&& t.bookmarks == s.bookmarks
    &&& forall|w: WindowId| #[trigger] tally(s.pool.items, w) <= tally(t.pool.items, w)
}

/// An output that is none.
pub open spec fn nil() -> Output {
    Output { id: OutputId(0), connector: OutputId(0) }
}

/// Retaining twice is retaining.
pub proof fn lemma_retains_trans(s: LayoutModel, t: LayoutModel, u: LayoutModel)
    requires
        retains(s, t),
        retains(t, u),
    ensures
        retains(s, u),
{
    assert forall|w: WindowId| #[trigger] tally(s.pool.items, w) <= tally(u.pool.items, w) by {
        assert(tally(s.pool.items, w) <= tally(t.pool.items, w));
    }
}

/// A mindful layout stays so where windows, drag and bookmarks are retained.
pub proof fn lemma_mindful(s: LayoutModel, t: LayoutModel)
    requires
        s.pool.wf(),
        t.pool.wf(),
        retains(s, t),
        s.mindful(),
    ensures
        t.mindful(),
{
    assert forall|w: WindowId| #[trigger] s.has_window(w) implies t.has_window(w) by {
        law_counted_windows_are_there(s, w);
        law_counted_windows_are_there(t, w);
        assert(tally(s.pool.items, w) <= tally(t.pool.items, w));
    }
    let list = s.bookmarks.list;
    assert forall|i: int| 0 <= i < list.len() implies t.bookmark_sound(#[trigger] list[i]) by {
        assert(s.bookmark_sound(list[i]));
    }
}

/// A mindful layout stays so once the layout was mended.
pub proof fn lemma_mended_mindful(s: LayoutModel, t: LayoutModel)
    requires
        s.pool.wf(),
        t.staffed(),
        t.mended().fits(),
        t.mended().pool.wf(),
    ensures
        retains(s, t) && s.mindful() ==> t.mended().mindful(),
{
    if retains(s, t) && s.mindful() {
        let u = t.mended();
        lemma_mended_load(t);
        lemma_mended_leads(t);
        assert(retains(s, u)) by {
            assert forall|w: WindowId| #[trigger] tally(s.pool.items, w) <= tally(
                u.pool.items,
                w,
            ) by {
                assert(tally(u.pool.items, w) == tally(t.pool.items, w));
                assert(tally(s.pool.items, w) <= tally(t.pool.items, w));
            }
        }
        lemma_mindful(s, u);
    }
}

/// Tidying retains everything.
pub proof fn lemma_tidy_retains(s: LayoutModel, mon: int)
    requires
        s.staffed(),
    ensures
        retains(s, s.tidy(mon)),
        retains(s, s.clean_up(mon)),
{
    let t = s.clean_up(mon);
    lemma_tidy_leads(s, mon);
    crate::reclaim::lemma_clean_up_leads(s, mon);
    lemma_clean_up_steady(s, mon, nil());
    lemma_steady_load(s, t, nil());
    assert forall|w: WindowId| #[trigger] tally(s.pool.items, w) <= tally(t.pool.items, w) by {
        assert(tally(t.pool.items, w) == tally(s.pool.items, w));
    }
}

/// Rearranging a view retains everything.
pub proof fn lemma_rearrange_retains(s: LayoutModel, mon: int, v: ViewModel, low: int, high: int)
    requires
        s.staffed(),
        0 <= mon < s.monitors.len(),
        s.rearrange(mon, v, low, high).fits(),
    ensures
        retains(s, s.rearrange(mon, v, low, high)),
{
    let m = s.monitors[mon];
    let act = s.acts.active;
    let o = nil();
    let s1 = s.with_view(act, m.output.id, v);
    lemma_with_view_leads(s, act, m.output.id, v);
    lemma_with_view_steady(s, act, m.output.id, v, o);
    let n = match s1.active_view(m.output.id) {
        Some(x) => x.ids.len() as int,
        None => 0,
    };
    lemma_mint_into_leads(s1, mon, act, n);
    let s2 = if high == v.ids.len() - 1 {
        s1.add_workspace_bottom(mon)
    } else {
        s1
    };
    assert(s1.leads_to(s2));
    lemma_mint_into_leads(s2, mon, s2.acts.active, 0);
    let s3 = if m.empty_workspace_above_first && low == 0 {
        s2.add_workspace_top(mon)
    } else {
        s2
    };
    assert(s2.leads_to(s3));
    let s4 = s3.settle(mon);
    let t = s4.clean_up(mon);
    crate::reclaim::lemma_clean_up_leads(s4, mon);
    assert(s3.fits() && s2.fits());
    lemma_steady_acts(s1, s1, o);
    assert(steady(s1, s2, o)) by {
        if s2 != s1 {
            lemma_mint_into_steady(s1, mon, act, n, o);
        }
    }
    assert(steady(s2, s3, o)) by {
        lemma_steady_acts(s2, s2, o);
        if s3 != s2 {
            lemma_mint_into_steady(s2, mon, s2.acts.active, 0, o);
        }
    }
    lemma_steady_acts(s3, s4, o);
    lemma_clean_up_steady(s4, mon, o);
    lemma_steady_trans(s, s1, s2, o);
    lemma_steady_trans(s, s2, s3, o);
    lemma_steady_trans(s, s3, s4, o);
    lemma_steady_trans(s, s4, t, o);
    lemma_steady_load(s, t, o);
    assert forall|w: WindowId| #[trigger] tally(s.pool.items, w) <= tally(t.pool.items, w) by {
        assert(tally(t.pool.items, w) == tally(s.pool.items, w));
    }
}

/// Reordering workspaces retains everything.
pub proof fn lemma_reorder_retains(s: LayoutModel, mon: int, from: int, to: int)
    requires
        s.staffed(),
        0 <= mon < s.monitors.len(),
    ensures
        s.sink(mon).fits() ==> retains(s, s.sink(mon)),
        s.raise(mon).fits() ==> retains(s, s.raise(mon)),
        s.relocate(mon, from, to).fits() ==> retains(s, s.relocate(mon, from, to)),
{
    if let Some(v) = s.active_view(s.monitors[mon].output.id) {
        let a = v.active_position();
        let n = v.ids.len();
        let at = if to < n {
            to
        } else {
            n - 1
        };
        if s.sink(mon).fits() && a + 1 < n {
            lemma_rearrange_retains(s, mon, v.swap(a, a + 1), a, a + 1);
        }
        if s.raise(mon).fits() && 0 < a < n {
            lemma_rearrange_retains(s, mon, v.swap(a, a - 1), a - 1, a);
        }
        if s.relocate(mon, from, to).fits() && !(n <= from || from == at) {
            if from < at {
                lemma_rearrange_retains(s, mon, v.move_within(from, at), from, at);
            } else {
                lemma_rearrange_retains(s, mon, v.move_within(from, at), at, from);
            }
        }
    }
}

/// Focusing a workspace retains everything.
pub proof fn lemma_focus_retains(s: LayoutModel, mon: int, idx: int)
    requires
        0 <= mon < s.monitors.len(),
    ensures
        retains(s, s.focus_on(mon, idx)),
{
    lemma_focus_on_leads(s, mon, idx);
    lemma_focus_on_pool(s, mon, idx);
}

/// Naming a workspace retains everything.
pub proof fn lemma_naming_retains(
    s: LayoutModel,
    name: Seq<char>,
    r: Option<crate::lookup::WorkspaceReference>,
)
    ensures
        retains(s, s.set_workspace_name(name, r)),
{
    broadcast use {
        lemma_put_tally,
        lemma_mint_into_leads,
        lemma_mint_into_load,
        lemma_normalize_leads,
        lemma_normalize_load,
    };

    let t = s.set_workspace_name(name, r);
    if s.named_workspace(name) is None {
        if let Some(id) = s.referred_or_active(r) {
            let s1 = LayoutModel { pool: s.pool.set_name(id, Some(name)), ..s };
            if let Some(mon) = s1.monitor_holding(id) {
                lemma_find_from(s1.monitors, s1.held_on(id), 0);
                let m = s1.monitors[mon];
                let v = s1.active_view(m.output.id);
                let top = m.empty_workspace_above_first && v is Some && v.unwrap().ids.len() > 0
                    && v.unwrap().ids[0] == id;
                let bottom = v is Some && v.unwrap().ids.len() > 0 && v.unwrap().ids.last() == id;
                let s2 = if top {
                    s1.add_workspace_top(mon)
                } else {
                    s1
                };
                assert(s1.leads_to(s2));
                let s3 = if bottom {
                    s2.add_workspace_bottom(mon)
                } else {
                    s2
                };
                assert(s2.leads_to(s3));
                assert(s3.leads_to(t));
                assert forall|w: WindowId| #[trigger] tally(s.pool.items, w) <= tally(
                    t.pool.items,
                    w,
                ) by {
                    assert(tally(s1.pool.items, w) == tally(s.pool.items, w));
                    assert(tally(s2.pool.items, w) == tally(s1.pool.items, w));
                    assert(tally(s3.pool.items, w) == tally(s2.pool.items, w));
                    assert(tally(t.pool.items, w) == tally(s3.pool.items, w));
                }
            }
        }
    }
}

/// A window that is put on a workspace that is there counts once more.
pub proof fn lemma_place_retains(
    s: LayoutModel,
    mon: int,
    idx: int,
    t: Tile,
    activate: ActivateWindow,
    beside: Option<WindowId>,
    allow: bool,
    u: WindowId,
)
    requires
        0 <= idx < s.view_len(mon),
        s.pool.has(s.active_view(s.monitors[mon].output.id).unwrap().ids[idx]),
    ensures
        tally(s.place_resolved(mon, idx, t, activate, beside, allow).pool.items, u) == tally(
            s.pool.items,
            u,
        ) + if u == t.window.id {
            1int
        } else {
            0
        },
{
    broadcast use {
        lemma_put_tally,
        lemma_add_tile_load,
        lemma_mint_into_load,
        lemma_focus_on_pool,
    };

}

/// Carrying a window over retains everything.
pub proof fn lemma_carry_retains(
    s: LayoutModel,
    mon: int,
    from: int,
    which: Option<WindowId>,
    mon2: int,
    to: int,
    activate: ActivateWindow,
)
    requires
        s.coherent(),
        0 <= mon2 < s.monitors.len(),
        0 <= to < s.view_len(mon2),
    ensures
        retains(s, s.carry(mon, from, which, mon2, to, activate)),
{
    broadcast use lemma_remove_window_load;

    let t = s.carry(mon, from, which, mon2, to, activate);
    lemma_carry_leads(s, mon, from, which, mon2, to, activate);
    if let Some(x) = s.workspace_at(mon, from) {
        if let Some(tile) = x.tile(which) {
            lemma_tile_there(s, mon, from, which);
            let a = LayoutModel { pool: s.pool.remove_window(x.id, tile.window.id), ..s };
            let out = s.monitors[mon2].output.id;
            crate::coherence::lemma_view_is_ok(s, s.acts.active, out);
            let id = s.active_view(out).unwrap().ids[to];
            assert(s.active_view(out).unwrap().ids.contains(id));
            assert(s.pool.member(id, s.acts.active));
            assert(a.pool.has(id)) by {
                crate::coherence::lemma_get(s.pool, id);
                crate::coherence::lemma_get(s.pool, x.id);
                crate::coherence::lemma_get(a.pool, id);
                let i = s.pool.pos(id).unwrap();
                assert(a.pool.items[i].id == id);
            }
            assert forall|w: WindowId| #[trigger] tally(s.pool.items, w) <= tally(
                t.pool.items,
                w,
            ) by {
                lemma_place_retains(a, mon2, to, alone(tile), activate, None, true, w);
                assert(tally(a.pool.items, w) == tally(s.pool.items, w) - if w == tile.window.id {
                    1int
                } else {
                    0
                });
            }
        }
    }
}

/// Moving a window within its monitor retains everything.
pub proof fn lemma_shift_retains(
    s: LayoutModel,
    mon: int,
    from: int,
    window: Option<WindowId>,
    idx: int,
    activate: ActivateWindow,
)
    requires
        s.coherent(),
        0 <= mon < s.monitors.len(),
        0 <= idx,
        s.shift_window(mon, from, window, idx, activate).fits(),
    ensures
        retains(s, s.shift_window(mon, from, window, idx, activate)),
{
    let n = s.view_len(mon);
    let to = if idx < n {
        idx
    } else {
        n - 1
    };
    let focus = activate.decided(window is None || s.active_window_on(mon) == window);
    let how = if focus {
        ActivateWindow::Yes
    } else {
        ActivateWindow::No
    };
    let a = s.carry(mon, from, window, mon, to, how);
    lemma_carry_leads(s, mon, from, window, mon, to, how);
    lemma_tidy_leads(a, mon);
    if !(to == from || s.workspace_at(mon, from) is None || s.workspace_at(
        mon,
        from,
    ).unwrap().tile(window) is None) {
        assert(s.shift_window(mon, from, window, idx, activate) == a.tidy(mon));
        crate::carrying::lemma_carry(s, mon, from, window, mon, to, how);
        lemma_carry_retains(s, mon, from, window, mon, to, how);
        lemma_tidy_retains(a, mon);
        lemma_retains_trans(s, a, a.tidy(mon));
    }
}

/// Moving a window to another workspace retains everything.
pub proof fn lemma_move_within_retains(
    s: LayoutModel,
    window: Option<WindowId>,
    idx: int,
    activate: ActivateWindow,
)
    requires
        s.coherent(),
        s.pointed(),
        0 <= idx,
        s.move_to_workspace(window, idx, activate).fits(),
    ensures
        retains(s, s.move_to_workspace(window, idx, activate)),
{
    if let Some((mon, from)) = s.command_place(window) {
        if let Some(w) = window {
            lemma_find_from(s.monitors, s.showing_window(w), 0);
        }
        lemma_shift_retains(s, mon, from, window, idx, activate);
    }
}

/// Moving a window to another output retains everything.
pub proof fn lemma_move_across_retains(
    s: LayoutModel,
    window: Option<WindowId>,
    mon2: int,
    idx: Option<int>,
    activate: ActivateWindow,
)
    requires
        s.coherent(),
        s.pointed(),
        0 <= mon2 < s.monitors.len(),
        idx is Some ==> 0 <= idx.unwrap(),
        s.move_to_output(window, mon2, idx, activate).fits(),
    ensures
        retains(s, s.move_to_output(window, mon2, idx, activate)),
{
    if let Some((mon, from)) = s.command_place(window) {
        let to = match idx {
            Some(i) => i,
            None => s.active_place(mon2).1,
        };
        let focus = activate.decided(
            window is None || (mon == s.focused && s.active_window_on(mon) == window),
        );
        let how = if focus {
            ActivateWindow::Yes
        } else {
            ActivateWindow::No
        };
        let a = s.carry(mon, from, window, mon2, to, how);
        let b = LayoutModel {
            focused: if focus {
                mon2
            } else {
                a.focused
            },
            ..a
        };
        lemma_carry_leads(s, mon, from, window, mon2, to, how);
        lemma_tidy_leads(b, mon);
        crate::lasting::lemma_active_position(s, mon2);
        if let Some(w) = window {
            lemma_find_from(s.monitors, s.showing_window(w), 0);
        }
        if !((mon == mon2 && from == to) || s.view_len(mon2) <= to || s.workspace_at(mon, from)
            is None || s.workspace_at(mon, from).unwrap().tile(window) is None) {
            assert(s.move_to_output(window, mon2, idx, activate) == b.tidy(mon));
            crate::carrying::lemma_carry(s, mon, from, window, mon2, to, how);
            lemma_carry_retains(s, mon, from, window, mon2, to, how);
            assert(retains(a, b));
            lemma_tidy_retains(b, mon);
            lemma_retains_trans(s, a, b);
            lemma_retains_trans(s, b, b.tidy(mon));
        }
    }
}

/// Moving a window by one workspace retains everything.
pub proof fn lemma_by_one_retains(s: LayoutModel, focus: bool)
    requires
        s.coherent(),
        s.pointed(),
    ensures
        retains(s, s.move_up(focus)),
        retains(s, s.move_down(focus)),
{
    if s.monitors.len() > 0 {
        let how = if focus {
            ActivateWindow::Yes
        } else {
            ActivateWindow::Smart
        };
        let mon = s.focused;
        let from = s.active_place(mon).1;
        crate::lasting::lemma_active_position(s, mon);
        if from > 0 {
            lemma_carry_retains(s, mon, from, None, mon, from - 1, how);
        }
        if from + 1 < s.view_len(mon) {
            lemma_carry_retains(s, mon, from, None, mon, from + 1, how);
        }
    }
}

/// Opening a workspace beside the focused one retains everything.
pub proof fn lemma_open_beside_retains(s: LayoutModel, below: int)
    requires
        s.pointed(),
    ensures
        retains(s, s.open_beside(below)),
{
    broadcast use {
        lemma_mint_into_load,
        lemma_mint_into_leads,
        lemma_focus_on_leads,
        lemma_focus_on_pool,
    };

    let t = s.open_beside(below);
    assert forall|w: WindowId| #[trigger] tally(s.pool.items, w) <= tally(t.pool.items, w) by {
        assert(tally(t.pool.items, w) == tally(s.pool.items, w));
    }
}

/// Activating a window retains everything.
pub proof fn lemma_activate_retains(s: LayoutModel, w: WindowId)
    ensures
        retains(s, s.activate_window(w)),
{
    broadcast use {lemma_put_tally, lemma_focus_on_leads, lemma_focus_on_pool};

    lemma_find_from(s.monitors, s.showing_window(w), 0);
}

/// Adding a workspace to an activity retains everything.
pub proof fn lemma_join_retains(s: LayoutModel, id: WorkspaceId, act: ActivityId)
    ensures
        retains(s, s.join(id, act)),
{
    broadcast use {lemma_put_tally, lemma_normalize_load};

    crate::membership::lemma_join_leads(s, id, act);
    let t = s.join(id, act);
    assert forall|w: WindowId| #[trigger] tally(s.pool.items, w) <= tally(t.pool.items, w) by {
        let s1 = LayoutModel {
            pool: s.pool.set_activities(id, s.activities_of(id).push(act)),
            ..s
        };
        assert(tally(s1.pool.items, w) == tally(s.pool.items, w));
    }
}

/// Switching activities retains everything.
pub proof fn lemma_switch_retains(s: LayoutModel, target: ActivityId)
    ensures
        retains(s, s.switch_activity(target)),
{
    broadcast use lemma_ensure_all_load;

    let a = LayoutModel { acts: s.acts.set_active(target), ..s.settle_all() };
    lemma_ensure_all_leads(a);
    let t = s.switch_activity(target);
    assert forall|w: WindowId| #[trigger] tally(s.pool.items, w) <= tally(t.pool.items, w) by {
        assert(tally(a.ensure_all().pool.items, w) == tally(a.pool.items, w));
    }
}

/// A steady step that keeps the drag and the bookmarks retains everything.
pub proof fn lemma_steady_retains(s: LayoutModel, t: LayoutModel, o: Output)
    requires
        s.staffed(),
        steady(s, t, o),
        t.moving == s.moving,
        t.bookmarks == s.bookmarks,
    ensures
        retains(s, t),
{
    lemma_steady_load(s, t, o);
    assert forall|w: WindowId| #[trigger] tally(s.pool.items, w) <= tally(t.pool.items, w) by {
        assert(tally(t.pool.items, w) == tally(s.pool.items, w));
    }
}

/// Carrying a column over retains everything.
pub proof fn lemma_carry_column_retains(
    s: LayoutModel,
    mon: int,
    from: int,
    mon2: int,
    to: int,
    activate: bool,
)
    requires
        s.coherent(),
        0 <= mon2 < s.monitors.len(),
    ensures
        retains(s, s.carry_column(mon, from, mon2, to, activate)),
{
    broadcast use {lemma_put_tally, lemma_focus_on_pool, lemma_focus_on_leads};

    let t = s.carry_column(mon, from, mon2, to, activate);
    if let Some(x) = s.workspace_at(mon, from) {
        if let Some(column) = x.active_column() {
            if 0 <= to < s.view_len(mon2) {
                let src = s.active_view(s.monitors[mon].output.id).unwrap().ids[from];
                crate::coherence::lemma_get(s.pool, src);
                let a = LayoutModel { pool: s.pool.take_active_column(x.id), ..s };
                let out = s.monitors[mon2].output.id;
                crate::coherence::lemma_view_is_ok(s, s.acts.active, out);
                let id = s.active_view(out).unwrap().ids[to];
                assert(s.active_view(out).unwrap().ids.contains(id));
                assert(s.pool.member(id, s.acts.active));
                crate::coherence::lemma_get(s.pool, id);
                crate::coherence::lemma_get(a.pool, id);
                let i = s.pool.pos(id).unwrap();
                assert(a.pool.items[i].id == id);
                let y = a.pool.get(id).unwrap();
                let leader = x.active_tile().unwrap().column;
                assert forall|w: WindowId| #[trigger] tally(s.pool.items, w) <= tally(
                    t.pool.items,
                    w,
                ) by {
                    crate::load::lemma_split_tiles(x.tiles, leader, w);
                    crate::load::lemma_concat_tiles(y.tiles, column, w);
                    let b = a.pool.add_column(id, column, x.active, activate);
                    assert(tally(a.pool.items, w) == tally(s.pool.items, w)
                        - crate::census::tiles_of(column, w));
                    assert(tally(b.items, w) == tally(a.pool.items, w) + crate::census::tiles_of(
                        column,
                        w,
                    ));
                    assert(tally(t.pool.items, w) == tally(b.items, w));
                }
            }
        }
    }
}

/// New bookends retain everything.
pub proof fn lemma_normalize_retains(s: LayoutModel)
    ensures
        retains(s, s.normalize()),
{
    broadcast use lemma_normalize_load;

    lemma_normalize_leads(s);
}

/// Moving a column by one workspace retains everything.
pub proof fn lemma_columns_by_one_retains(s: LayoutModel, activate: bool)
    requires
        s.coherent(),
        s.pointed(),
    ensures
        retains(s, s.column_up(activate)),
        retains(s, s.column_down(activate)),
{
    if s.monitors.len() > 0 {
        let mon = s.focused;
        let from = s.active_place(mon).1;
        let smart = if activate {
            ActivateWindow::Yes
        } else {
            ActivateWindow::Smart
        };
        crate::lasting::lemma_active_position(s, mon);
        lemma_normalize_retains(s);
        if from > 0 {
            let a = s.shift_column(mon, from - 1, activate, smart);
            lemma_carry_retains(s, mon, from, None, mon, from - 1, smart);
            lemma_carry_column_retains(s, mon, from, mon, from - 1, activate);
            lemma_normalize_retains(a);
            lemma_retains_trans(s, a, a.normalize());
        }
        if from + 1 < s.view_len(mon) {
            let b = s.shift_column(mon, from + 1, activate, smart);
            lemma_carry_retains(s, mon, from, None, mon, from + 1, smart);
            lemma_carry_column_retains(s, mon, from, mon, from + 1, activate);
            lemma_normalize_retains(b);
            lemma_retains_trans(s, b, b.normalize());
        }
    }
}

/// Moving a column within its monitor retains everything.
pub proof fn lemma_columns_within_retains(s: LayoutModel, idx: int, activate: bool)
    requires
        s.coherent(),
        s.pointed(),
        s.monitors.len() > 0,
        0 <= idx,
        s.move_column_to_workspace(idx, activate).fits(),
    ensures
        retains(s, s.move_column_to_workspace(idx, activate)),
{
    let mon = s.focused;
    let from = s.active_place(mon).1;
    let n = s.view_len(mon);
    let to = if idx < n {
        idx
    } else {
        n - 1
    };
    let smart = if activate {
        ActivateWindow::Smart
    } else {
        ActivateWindow::No
    };
    let a = s.shift_window(mon, from, None, idx, smart);
    let b = s.carry_column(mon, from, mon, to, activate);
    lemma_normalize_retains(s);
    lemma_normalize_retains(a);
    lemma_normalize_retains(b);
    lemma_carry_column_retains(s, mon, from, mon, to, activate);
    lemma_retains_trans(s, b, b.normalize());
    if let Some(w) = s.workspace_at(mon, from) {
        if to != from && w.floating_is_active() {
            lemma_normalize_leads(a);
            lemma_shift_retains(s, mon, from, None, idx, smart);
            lemma_retains_trans(s, a, a.normalize());
        }
    }
}

/// Moving a column to another output retains everything.
pub proof fn lemma_columns_across_retains(s: LayoutModel, mon2: int, idx: Option<int>, activate: bool)
    requires
        s.coherent(),
        s.pointed(),
        0 <= mon2 < s.monitors.len(),
        s.move_column_to_output(mon2, idx, activate).fits(),
    ensures
        retains(s, s.move_column_to_output(mon2, idx, activate)),
{
    let mon = s.focused;
    let from = s.active_place(mon).1;
    let n = s.view_len(mon2);
    let want = match idx {
        Some(i) => i,
        None => s.active_place(mon2).1,
    };
    let to = if want < n {
        want
    } else {
        n - 1
    };
    if let Some(w) = s.workspace_at(mon, from) {
        if w.floating_is_active() {
            lemma_move_across_retains(s, None, mon2, None, ActivateWindow::Smart);
        }
    }
    let a = s.carry_column(mon, from, mon2, to, activate);
    lemma_carry_column_retains(s, mon, from, mon2, to, activate);
    let b = LayoutModel {
        focused: if activate {
            mon2
        } else {
            a.focused
        },
        ..a
    };
    assert(retains(a, b));
    lemma_normalize_retains(b);
    lemma_retains_trans(s, a, b);
    lemma_retains_trans(s, b, b.normalize());
}

/// Taking a workspace's name away retains everything.
pub proof fn lemma_unnaming_retains(s: LayoutModel, id: WorkspaceId)
    requires
        s.staffed(),
    ensures
        retains(s, s.unname(id)),
{
    broadcast use {lemma_put_tally, crate::census::lemma_pool_remove_tally};

    let a = LayoutModel { pool: s.pool.set_name(id, None), ..s };
    assert(a.staffed()) by {
        if let Some(w) = s.pool.get(id) {
            crate::coherence::lemma_put_alike(
                s.pool,
                id,
                crate::workspace::WorkspaceModel { name: None, ..w },
            );
            crate::steadying::lemma_alike_members(s.pool, a.pool, s.acts);
        }
    }
    assert(retains(s, a));
    let t = s.unname(id);
    if let Some(mon) = s.monitor_showing(id) {
        lemma_tidy_retains(a, mon);
        lemma_retains_trans(s, a, t);
    } else {
        assert forall|w: WindowId| #[trigger] tally(s.pool.items, w) <= tally(t.pool.items, w) by {
            assert(tally(a.pool.items, w) == tally(s.pool.items, w));
        }
    }
}

/// Putting a window on a workspace retains everything.
pub proof fn lemma_add_to_retains(
    s: LayoutModel,
    id: WorkspaceId,
    t: Tile,
    activate: ActivateWindow,
    beside: Option<WindowId>,
)
    ensures
        retains(s, s.add_to(id, t, activate, beside)),
{
    broadcast use {lemma_put_tally, lemma_add_tile_load};

}

/// Putting a window down on a monitor retains everything.
pub proof fn lemma_put_down_retains(
    s: LayoutModel,
    mon: int,
    idx: int,
    t: Tile,
    activate: ActivateWindow,
    beside: Option<WindowId>,
)
    requires
        0 <= mon < s.monitors.len(),
    ensures
        retains(s, s.place_resolved(mon, idx, t, activate, beside, true)),
{
    broadcast use {
        lemma_put_tally,
        lemma_add_tile_load,
        lemma_mint_into_load,
        lemma_focus_on_pool,
    };

    crate::moves::lemma_place_resolved_leads(s, mon, idx, t, activate, beside, true);
}

/// Keeping a window while no output is connected retains everything.
pub proof fn lemma_park_retains(
    s: LayoutModel,
    t: Tile,
    target: AddWindowTarget,
    activate: ActivateWindow,
)
    ensures
        retains(s, s.park_window(t, target, activate)),
{
    let loose = s.ensure_parked();
    assert(retains(s, loose)) by {
        broadcast use crate::census::lemma_push_tally;

    }
    let kept = loose.add_to(loose.parked[0], t, activate, None);
    lemma_add_to_retains(loose, loose.parked[0], t, activate, None);
    lemma_retains_trans(s, loose, kept);
    if let AddWindowTarget::Workspace(id) = target {
        lemma_add_to_retains(s, id, t, activate, None);
    }
    if let AddWindowTarget::NextTo(w) = target {
        if let Some(i) = crate::search::find(s.parked, crate::windows::id_having(s.pool, w)) {
            lemma_add_to_retains(s, s.parked[i], t, activate, Some(w));
        }
    }
}

/// Adding a window retains everything.
pub proof fn lemma_add_retains(
    s: LayoutModel,
    t: Tile,
    target: AddWindowTarget,
    activate: ActivateWindow,
)
    requires
        s.coherent(),
        s.pointed(),
    ensures
        retains(s, s.add_window(t, target, activate)),
{
    if s.monitors.len() == 0 {
        lemma_park_retains(s, t, target, activate);
    } else {
        crate::upholding::lemma_add_place(s, target);
        if s.is_hidden_target(target) {
            let id = target->Workspace_0;
            let a = s.add_to(id, t, activate, None);
            lemma_add_to_retains(s, id, t, activate, None);
            lemma_normalize_retains(a);
            lemma_retains_trans(s, a, a.normalize());
        } else if let Some(((mon, idx), beside)) = s.add_place(target) {
            let a = s.place_resolved(mon, idx, t, activate, beside, true);
            lemma_put_down_retains(s, mon, idx, t, activate, beside);
            let b = LayoutModel {
                focused: if activate is Yes {
                    mon
                } else {
                    a.focused
                },
                ..a
            };
            assert(retains(a, b));
            lemma_normalize_retains(b);
            lemma_retains_trans(s, a, b);
            lemma_retains_trans(s, b, b.normalize());
        }
    }
}

/// A workspace that is not in use holds no window.
pub proof fn lemma_idle_tiles(p: PoolModel, id: WorkspaceId, u: WindowId)
    requires
        !p.busy(id),
    ensures
        match p.get(id) {
            Some(x) => tiles_of(x.tiles, u) == 0,
            None => true,
        },
{
    if let Some(x) = p.get(id) {
        assert(x.tiles.len() == 0);
    }
}

/// Taking a window off its workspace leaves the others where they are.
pub proof fn lemma_picked_off_keeps(s: LayoutModel, w: WindowId, u: WindowId)
    requires
        u != w,
    ensures
        tally(s.picked_off(w).pool.items, u) == tally(s.pool.items, u),
{
    broadcast use {lemma_remove_window_load, lemma_pool_remove_tally};

    if let Some((mon, idx)) = s.window_place(w) {
        let m = s.monitors[mon];
        let v = s.active_view(m.output.id).unwrap();
        let id = v.ids[idx];
        let q = s.pool.remove_window(id, w);
        let still = m.workspace_switch is None;
        let cull = !q.busy(id) && idx != v.active_position() && idx != v.ids.len() - 1 && still
            && q.exclusive(id);
        let v1 = if cull {
            v.remove_at(idx)
        } else {
            v
        };
        let p1 = if cull {
            q.remove(id)
        } else {
            q
        };
        if cull {
            lemma_idle_tiles(q, id, u);
        }
        assert(tally(p1.items, u) == tally(s.pool.items, u));
        if still && crate::reclaim::doubled(p1, v1, m.empty_workspace_above_first) {
            lemma_idle_tiles(p1, v1.ids[1], u);
        }
    } else if let Some(i) = crate::search::find(
        s.parked,
        crate::windows::id_having(s.pool, w),
    ) {
        let id = s.parked[i];
        let q = s.pool.remove_window(id, w);
        if !q.busy(id) {
            lemma_idle_tiles(q, id, u);
        }
    } else if let Some(id) = s.pool.first(crate::lookup::having(w)) {
        let q = s.pool.remove_window(id, w);
        if !q.busy(id) {
            lemma_idle_tiles(q, id, u);
        }
    }
}

/// Taking a window out leaves the others where they are.
pub proof fn lemma_take_keeps(s: LayoutModel, w: WindowId, u: WindowId)
    requires
        u != w,
    ensures
        tally(s.take_window(w).pool.items, u) == tally(s.pool.items, u),
        s.take_window(w).bookmarks == s.bookmarks,
        s.take_window(w).moving == match s.moving {
            Some(InteractiveMoveState::Starting { window_id }) => if window_id == w {
                None
            } else {
                s.moving
            },
            Some(InteractiveMoveState::Moving(d)) => if d.tile.window.id == w {
                None
            } else {
                s.moving
            },
            None => None,
        },
{
    crate::ordering::lemma_release_order(s);
    if s.is_dragged(w) {
        assert(tally(s.release().pool.items, u) == tally(s.pool.items, u));
    } else {
        let a = s.ungrabbed(w);
        assert(s.take_window(w) == a.picked_off(w));
        assert(tally(a.pool.items, u) == tally(s.pool.items, u));
        lemma_picked_off_keeps(a, w, u);
        crate::ordering::lemma_picked_off_load(a, w, u);
        crate::placing::lemma_picked_off_frame(a, w);
    }
}

/// Where every window but `w` stays, and nothing leads to `w` any more, the layout stays mindful.
pub proof fn lemma_forget_mindful(s: LayoutModel, w: WindowId)
    requires
        s.pool.wf(),
        s.mindful(),
        (LayoutModel { bookmarks: s.bookmarks.prune(w), ..s }).take_window(w).pool.wf(),
    ensures
        (LayoutModel { bookmarks: s.bookmarks.prune(w), ..s }).take_window(w).mindful(),
{
    let a = LayoutModel { bookmarks: s.bookmarks.prune(w), ..s };
    let t = a.take_window(w);
    lemma_take_keeps(a, w, WindowId(if w.0 == 0 { 1 } else { 0 }));
    assert forall|u: WindowId| u != w && #[trigger] s.has_window(u) implies t.has_window(u) by {
        law_counted_windows_are_there(s, u);
        law_counted_windows_are_there(t, u);
        lemma_take_keeps(a, w, u);
    }
    let old = s.bookmarks.list;
    let kept = old.filter(crate::bookmarks::outlives(w));
    let list = t.bookmarks.list;
    crate::bookmarks::lemma_filter_places(old, crate::bookmarks::outlives(w));
    assert forall|i: int| 0 <= i < list.len() implies t.bookmark_sound(#[trigger] list[i]) by {
        let k = choose|k: int| 0 <= k < old.len() && old[k] == kept[i];
        assert(s.bookmark_sound(old[k]));
    }
    assert forall|i: int, j: int| 0 <= i < j < list.len() implies !crate::invariants::clash(
        #[trigger] list[i],
        #[trigger] list[j],
    ) by {
        assert(!crate::invariants::clash(kept[i], kept[j]));
    }
}

/// Dragging a window that is there keeps the layout mindful.
pub proof fn lemma_drag_mindful(s: LayoutModel, w: WindowId, m: DragMotion)
    requires
        s.pool.wf(),
        s.mindful(),
        s.update_move(w, m).pool.wf(),
        s.moving == Some((InteractiveMoveState::Starting { window_id: w })) ==> (LayoutModel {
            moving: None,
            ..s
        }).tile_of(w) is Some,
    ensures
        s.update_move(w, m).mindful(),
{
    broadcast use crate::load::lemma_lock_load;

    let t = s.update_move(w, m);
    if let Some(InteractiveMoveState::Starting { window_id }) = s.moving {
        if window_id == w && (s.floats_at_home(w) || m.far) {
            let a = LayoutModel { moving: None, ..s };
            crate::ordering::lemma_tile_of(a, w);
            lemma_take_keeps(a, w, WindowId(if w.0 == 0 { 1 } else { 0 }));
            assert forall|u: WindowId| #[trigger] s.has_window(u) implies t.has_window(u) by {
                if u != w {
                    law_counted_windows_are_there(s, u);
                    law_counted_windows_are_there(t, u);
                    lemma_take_keeps(a, w, u);
                }
            }
            let list = s.bookmarks.list;
            assert forall|i: int| 0 <= i < list.len() implies t.bookmark_sound(
                #[trigger] list[i],
            ) by {
                assert(s.bookmark_sound(list[i]));
            }
        } else {
            assert(t == s);
        }
    } else if let Some(InteractiveMoveState::Moving(d)) = s.moving {
        if d.tile.window.id == w {
            assert forall|u: WindowId| #[trigger] s.has_window(u) implies t.has_window(u) by {}
            let list = s.bookmarks.list;
            assert forall|i: int| 0 <= i < list.len() implies t.bookmark_sound(
                #[trigger] list[i],
            ) by {
                assert(s.bookmark_sound(list[i]));
            }
        }
    }
}

/// Moving a window out of sight retains everything.
pub proof fn lemma_move_to_pool_retains(
    s: LayoutModel,
    window: Option<WindowId>,
    id: WorkspaceId,
    activate: ActivateWindow,
)
    requires
        s.coherent(),
        s.pool_move(window, id.0) is Ok,
        s.pool_move(window, id.0)->Ok_0 is MovedDormant,
        s.move_to_pool(window, id, activate).fits(),
    ensures
        retains(s, s.move_to_pool(window, id, activate)),
{
    broadcast use {lemma_remove_window_load, lemma_add_tile_load, lemma_put_tally};

    let (mon, from) = s.pool_source(window).unwrap();
    if let Some(w) = window {
        lemma_find_from(s.monitors, s.showing_window(w), 0);
    }
    let x = s.workspace_at(mon, from).unwrap();
    let tile = x.tile(window).unwrap();
    let how = if activate is No {
        ActivateWindow::No
    } else {
        ActivateWindow::Yes
    };
    lemma_tile_there(s, mon, from, window);
    let q = s.pool.remove_window(x.id, tile.window.id);
    let a = LayoutModel { pool: q, ..s };
    let b = a.add_to(id, alone(tile), how, None);
    let c = b.normalize();
    lemma_normalize_leads(b);
    lemma_tidy_leads(c, mon);
    crate::placing::lemma_removed_wf(s.pool, x.id, tile.window.id);
    crate::coherence::lemma_alike_coherent(s, q);
    crate::carrying::lemma_add_to(a, id, alone(tile), how, None);
    crate::keeping::law_normalize_adds_only(b);
    assert(q.has(id)) by {
        crate::coherence::lemma_get(s.pool, id);
        crate::coherence::lemma_get(s.pool, x.id);
        crate::coherence::lemma_get(q, id);
        let i = s.pool.pos(id).unwrap();
        assert(q.items[i].id == id);
    }
    assert(retains(s, b)) by {
        assert forall|w: WindowId| #[trigger] tally(s.pool.items, w) <= tally(b.pool.items, w) by {
            assert(tally(q.items, w) == tally(s.pool.items, w) - if w == tile.window.id {
                1int
            } else {
                0
            });
        }
    }
    lemma_normalize_retains(b);
    lemma_tidy_retains(c, mon);
    lemma_retains_trans(s, b, c);
    lemma_retains_trans(s, c, c.tidy(mon));
}

/// Letting a swipe go retains everything.
pub proof fn lemma_end_swipe_retains(s: LayoutModel, mon: int, idx: int)
    ensures
        retains(s, s.end_swipe(mon, idx)),
{
}

/// Beginning a swipe retains everything.
pub proof fn lemma_begin_swipe_retains(
    s: LayoutModel,
    out: OutputId,
    is_touchpad: bool,
    reached: crate::gestures::Reached,
    landings: Seq<usize>,
    n: int,
)
    ensures
        retains(s, s.begin_swipe(out, is_touchpad, reached, landings, n)),
    decreases n,
{
    if n > 0 {
        lemma_begin_swipe_retains(s, out, is_touchpad, reached, landings, n - 1);
    }
}

/// Looking after the workspaces of monitors retains everything.
pub proof fn lemma_attend_retains(s: LayoutModel, n: int)
    ensures
        retains(s, s.attend(n)),
    decreases n,
{
    if n > 0 {
        lemma_attend_retains(s, n - 1);
        let a = s.attend(n - 1);
        let t = s.attend(n);
        assert forall|w: WindowId| #[trigger] tally(s.pool.items, w) <= tally(t.pool.items, w) by {
            assert(tally(s.pool.items, w) <= tally(a.pool.items, w));
            let m = a.monitors[n - 1];
            if let Some(v) = a.active_view(m.output.id) {
                crate::ordering::lemma_attend_load(
                    a.pool,
                    v.ids,
                    v.active_position(),
                    s.drag_lock(),
                    s.overview_open,
                    w,
                );
            }
        }
    }
}

/// Refreshing retains everything.
pub proof fn lemma_refresh_retains(s: LayoutModel, is_active: bool)
    ensures
        retains(s, s.refresh(is_active)),
{
    let n = s.monitors.len() as int;
    let a = s.attend(n);
    let t = s.refresh(is_active);
    lemma_attend_retains(s, n);
    assert forall|w: WindowId| #[trigger] tally(s.pool.items, w) <= tally(t.pool.items, w) by {
        crate::ordering::lemma_still_load(a.pool, a.parked, w);
        assert(tally(s.pool.items, w) <= tally(a.pool.items, w));
    }
}

/// Resting a drag over something retains everything.
pub proof fn lemma_hold_retains(
    s: LayoutModel,
    scrolled: bool,
    target: Option<crate::layout::DndHoldTarget>,
    now: u64,
)
    ensures
        retains(s, s.advance_hold(scrolled, target, now)),
{
    broadcast use {lemma_put_tally, lemma_focus_on_pool, lemma_focus_on_leads};

    if let Some(out) = s.drag_output() {
        lemma_find_from(s.monitors, crate::layout::on_output(out), 0);
    }
    let t = s.advance_hold(scrolled, target, now);
    assert forall|w: WindowId| #[trigger] tally(s.pool.items, w) <= tally(t.pool.items, w) by {
        assert(tally(t.pool.items, w) == tally(s.pool.items, w));
    }
}

/// Ending what has arrived is steady.
pub proof fn lemma_end_arrived_retains(s: LayoutModel, slid: Seq<bool>, arrived: Seq<bool>, n: int)
    requires
        s.staffed(),
    ensures
        steady(s, s.end_arrived(slid, arrived, n), nil()),
        s.end_arrived(slid, arrived, n).moving == s.moving,
        s.end_arrived(slid, arrived, n).bookmarks == s.bookmarks,
    decreases n,
{
    let o = nil();
    lemma_steady_acts(s, s, o);
    if n > 0 {
        lemma_end_arrived_retains(s, slid, arrived, n - 1);
        let a = s.end_arrived(slid, arrived, n - 1);
        let b = if slid[n - 1] {
            a.end_slide(n - 1)
        } else {
            a
        };
        lemma_steady_acts(a, b, o);
        lemma_steady_trans(s, a, b, o);
        let c = b.settle(n - 1);
        lemma_steady_acts(b, c, o);
        lemma_clean_up_steady(c, n - 1, o);
        crate::reclaim::lemma_clean_up_leads(c, n - 1);
        lemma_steady_trans(s, b, c, o);
        lemma_steady_trans(s, c, c.clean_up(n - 1), o);
    }
}

/// A frame retains everything.
pub proof fn lemma_advance_retains(
    s: LayoutModel,
    scrolled: bool,
    target: Option<crate::layout::DndHoldTarget>,
    now: u64,
    opened: bool,
    slid: Seq<bool>,
    arrived: Seq<bool>,
)
    requires
        s.advance_hold(scrolled, target, now).staffed(),
    ensures
        retains(s, s.advance(scrolled, target, now, opened, slid, arrived)),
{
    let a = s.advance_hold(scrolled, target, now);
    lemma_hold_retains(s, scrolled, target, now);
    let b = if opened {
        a.settle_overview()
    } else {
        a
    };
    let n = b.monitors.len() as int;
    let t = b.end_arrived(slid, arrived, n);
    lemma_end_arrived_retains(b, slid, arrived, n);
    lemma_steady_retains(b, t, nil());
    assert(retains(s, b));
    lemma_retains_trans(s, b, t);
}

/// Adding a column retains everything.
pub proof fn lemma_add_column_retains(
    s: LayoutModel,
    mon: int,
    idx: int,
    column: Seq<Tile>,
    head: Option<WindowId>,
    activate: bool,
)
    requires
        0 <= mon < s.monitors.len(),
    ensures
        retains(s, s.add_column(mon, idx, column, head, activate)),
{
    broadcast use {lemma_put_tally, lemma_focus_on_pool, lemma_focus_on_leads};

    let a = s.put_column(mon, idx, column, head, activate);
    let b = LayoutModel {
        focused: if activate {
            mon
        } else {
            a.focused
        },
        ..a
    };
    assert(retains(s, b)) by {
        assert forall|w: WindowId| #[trigger] tally(s.pool.items, w) <= tally(b.pool.items, w) by {
            crate::census::lemma_tiles_of(column, w);
            if let Some(v) = s.active_view(s.monitors[mon].output.id) {
                if 0 <= idx < v.ids.len() {
                    if let Some(x) = s.pool.get(v.ids[idx]) {
                        crate::load::lemma_concat_tiles(x.tiles, column, w);
                    }
                }
            }
        }
    }
    lemma_normalize_retains(b);
    lemma_retains_trans(s, b, b.normalize());
}

/// Steps that keep the load, the drag and the bookmarks retain everything.
pub proof fn lemma_load_retains(s: LayoutModel, t: LayoutModel)
    requires
        same_load(s.pool, t.pool),
        t.moving == s.moving,
        t.bookmarks == s.bookmarks,
    ensures
        retains(s, t),
{
    assert forall|w: WindowId| #[trigger] tally(s.pool.items, w) <= tally(t.pool.items, w) by {
        assert(tally(t.pool.items, w) == tally(s.pool.items, w));
    }
}

/// Making a workspace sticky, or the opposite, retains everything.
pub proof fn lemma_sticky_retains(s: LayoutModel, id: WorkspaceId, sticky: bool)
    ensures
        retains(s, (LayoutModel { pool: s.pool.set_sticky(id, sticky), ..s })),
{
    broadcast use lemma_put_tally;

}

/// Giving a workspace other activities retains everything.
pub proof fn lemma_reassign_retains(s: LayoutModel, id: WorkspaceId, new: Seq<ActivityId>)
    requires
        s.staffed(),
        new.len() > 0,
        forall|a: ActivityId| #[trigger] new.contains(a) ==> s.acts.has(a),
        s.reassign(id, new).fits(),
    ensures
        retains(s, s.reassign(id, new)),
{
    crate::abiding::lemma_reassign_staffed(s, id, new);
    crate::abiding::lemma_reassign_level(s, id, new);
    lemma_load_retains(s, s.reassign(id, new));
}

} // verus!
