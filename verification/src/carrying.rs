//! Windows that are moved come where they are sent, and everything stays coherent.

use vstd::prelude::*;

use crate::coherence::{
    lemma_alike_coherent, lemma_get, lemma_get_put, lemma_put_alike, lemma_view_is_ok,
};
use crate::ids::{WindowId, WorkspaceId};
use crate::keeping::{law_normalize_adds_only, lemma_mint_into};
use crate::keeping_views::lemma_clean_up;
use crate::layout::LayoutModel;
use crate::monitor::WorkspaceSwitch;
use crate::moves::{alone, insert_target, BookendResolution};
use crate::placing::{law_placing_claims, lemma_focus_on, lemma_removed_wf, settled_in};
use crate::search::lemma_find_from;
use crate::windows::{takes_focus, ActivateWindow};
use crate::workspace::{Tile, WorkspaceModel};

verus! {

/// The workspace at a place of a view is the one that the pool has under its id.
pub proof fn lemma_workspace_at(s: LayoutModel, mon: int, idx: int)
    requires
        s.coherent(),
        s.workspace_at(mon, idx) is Some,
    ensures
        ({
            let v = s.active_view(s.monitors[mon].output.id).unwrap();
            let w = s.workspace_at(mon, idx).unwrap();
            &&& 0 <= idx < v.ids.len()
            &&& v.ids[idx] == w.id
            &&& s.pool.get(w.id) == Some(w)
            &&& v.wf()
        }),
{
    let out = s.monitors[mon].output.id;
    let v = s.active_view(out).unwrap();
    lemma_view_is_ok(s, s.acts.active, out);
    lemma_get(s.pool, v.ids[idx]);
}

/// A window moved to another workspace is there, and that one is its
/// output's own from then on; the one it came from has only lost it. No other workspace changes,
/// and the layout stays coherent.
pub proof fn law_carrying_moves(
    s: LayoutModel,
    mon: int,
    from: int,
    which: Option<WindowId>,
    mon2: int,
    to: int,
    activate: ActivateWindow,
)
    requires
        s.coherent(),
        0 <= mon < s.monitors.len(),
        0 <= mon2 < s.monitors.len(),
        match s.workspace_at(mon, from) {
            Some(w) => w.tile(which) is Some,
            None => false,
        },
        0 <= to < s.view_len(mon2),
        s.active_view(s.monitors[mon2].output.id).unwrap().ids[to] != s.workspace_at(
            mon,
            from,
        ).unwrap().id,
        s.carry(mon, from, which, mon2, to, activate).fits(),
    ensures
        ({
            let r = s.carry(mon, from, which, mon2, to, activate);
            let w = s.workspace_at(mon, from).unwrap();
            let t = w.tile(which).unwrap();
            let out = s.monitors[mon2].output.id;
            let id = s.active_view(out).unwrap().ids[to];
            let d = s.pool.get(id).unwrap();
            &&& r.coherent()
            &&& r.pool.get(w.id) == Some(w.remove_window(t.window.id))
            &&& r.pool.get(id) == Some(
                settled_in(d.add_tile(alone(t), takes_focus(d, activate, None)), out),
            )
            &&& forall|x: WorkspaceId| #[trigger]
                s.pool.has(x) && x != w.id && x != id ==> r.pool.get(x) == s.pool.get(x)
            &&& r.shows_on(s.acts.active, out, id)
        }),
{
    let w = s.workspace_at(mon, from).unwrap();
    let t = w.tile(which).unwrap();
    let out = s.monitors[mon2].output.id;
    let v = s.active_view(out).unwrap();
    let id = v.ids[to];
    let q = s.pool.remove_window(w.id, t.window.id);
    let s1 = LayoutModel { pool: q, ..s };
    lemma_workspace_at(s, mon, from);
    lemma_get(s.pool, w.id);
    lemma_removed_wf(s.pool, w.id, t.window.id);
    lemma_get_put(s.pool, w.id, w.remove_window(t.window.id));
    lemma_alike_coherent(s, q);
    lemma_view_is_ok(s, s.acts.active, out);
    assert(v.ids.contains(id));
    assert(s.pool.member(id, s.acts.active));
    let focus = takes_focus(s1.pool.get(id).unwrap(), activate, None);
    assert(s1.pool.get(id) == s.pool.get(id));
    law_placing_claims(s1, mon2, to, alone(t), focus, activate is Yes);
    let r = s.carry(mon, from, which, mon2, to, activate);
    assert(r == s1.place(mon2, to, alone(t), focus, activate is Yes));
    assert forall|x: WorkspaceId| #[trigger] s.pool.has(x) && x != w.id && x != id implies r.pool.get(
        x,
    ) == s.pool.get(x) by {
        assert(q.get(x) == s.pool.get(x));
        assert(s1.pool.has(x));
    }
    assert(s1.pool.has(w.id));
}

/// Moving a window from one workspace to another keeps the layout coherent.
pub proof fn lemma_carry(
    s: LayoutModel,
    mon: int,
    from: int,
    which: Option<WindowId>,
    mon2: int,
    to: int,
    activate: ActivateWindow,
)
    requires
        s.coherent(),
        0 <= mon < s.monitors.len(),
        0 <= mon2 < s.monitors.len(),
        s.carry(mon, from, which, mon2, to, activate).fits(),
    ensures
        s.carry(mon, from, which, mon2, to, activate).coherent(),
{
    if let Some(w) = s.workspace_at(mon, from) {
        if let Some(t) = w.tile(which) {
            let q = s.pool.remove_window(w.id, t.window.id);
            let s1 = LayoutModel { pool: q, ..s };
            lemma_removed_wf(s.pool, w.id, t.window.id);
            lemma_alike_coherent(s, q);
            lemma_place_resolved(s1, mon2, to, alone(t), activate, None, true);
        }
    }
}

/// Putting a window on a workspace of a monitor keeps the layout coherent.
pub proof fn lemma_place_resolved(
    s: LayoutModel,
    mon: int,
    idx: int,
    tile: Tile,
    activate: ActivateWindow,
    beside: Option<WindowId>,
    allow: bool,
)
    requires
        s.coherent(),
        0 <= mon < s.monitors.len(),
        s.place_resolved(mon, idx, tile, activate, beside, allow).fits(),
    ensures
        s.place_resolved(mon, idx, tile, activate, beside, allow).coherent(),
{
    if let Some(v) = s.active_view(s.monitors[mon].output.id) {
        if 0 <= idx < v.ids.len() {
            let focus = match s.pool.get(v.ids[idx]) {
                Some(w) => takes_focus(w, activate, beside),
                None => false,
            };
            law_placing_claims(s, mon, idx, tile, focus, allow && activate is Yes);
        }
    }
}

/// Tidying up keeps the layout coherent.
pub proof fn lemma_tidy(s: LayoutModel, mon: int)
    requires
        s.coherent(),
        0 <= mon < s.monitors.len(),
    ensures
        s.tidy(mon).coherent(),
{
    lemma_clean_up(s, mon);
}

/// A place that a command is about is on a monitor.
pub proof fn lemma_command_place(s: LayoutModel, window: Option<WindowId>)
    requires
        s.monitors.len() > 0 ==> 0 <= s.focused < s.monitors.len(),
    ensures
        match s.command_place(window) {
            Some((mon, _)) => 0 <= mon < s.monitors.len(),
            None => true,
        },
{
    if let Some(w) = window {
        lemma_find_from(s.monitors, s.showing_window(w), 0);
    }
}

/// Moving a window within a monitor keeps the layout coherent.
pub proof fn lemma_shift_window(
    s: LayoutModel,
    mon: int,
    from: int,
    window: Option<WindowId>,
    idx: int,
    activate: ActivateWindow,
)
    requires
        s.coherent(),
        0 <= mon < s.monitors.len(),
        s.shift_window(mon, from, window, idx, activate).fits(),
    ensures
        s.shift_window(mon, from, window, idx, activate).coherent(),
{
    let n = s.view_len(mon);
    let to = if idx < n {
        idx
    } else {
        n - 1
    };
    let focus = activate.decided(window is None || s.active_window_on(mon) == window);
    let how = if focus {
        ActivateWindow::Yes
    } else {
        ActivateWindow::No
    };
    let r = s.carry(mon, from, window, mon, to, how);
    crate::moves::lemma_carry_leads(s, mon, from, window, mon, to, how);
    crate::moves::lemma_tidy_leads(r, mon);
    if !(to == from || s.workspace_at(mon, from) is None || s.workspace_at(
        mon,
        from,
    ).unwrap().tile(window) is None) {
        assert(s.shift_window(mon, from, window, idx, activate) == r.tidy(mon));
        lemma_carry(s, mon, from, window, mon, to, how);
        lemma_tidy(r, mon);
    }
}

/// Moving a window to another workspace of its monitor keeps the layout coherent.
pub proof fn law_moving_within_keeps_coherence(
    s: LayoutModel,
    window: Option<WindowId>,
    idx: int,
    activate: ActivateWindow,
)
    requires
        s.coherent(),
        s.monitors.len() > 0 ==> 0 <= s.focused < s.monitors.len(),
        s.move_to_workspace(window, idx, activate).fits(),
    ensures
        s.move_to_workspace(window, idx, activate).coherent(),
{
    lemma_command_place(s, window);
    if let Some((mon, from)) = s.command_place(window) {
        lemma_shift_window(s, mon, from, window, idx, activate);
    }
}

/// Moving a window to another output keeps the layout coherent.
pub proof fn law_moving_across_keeps_coherence(
    s: LayoutModel,
    window: Option<WindowId>,
    mon2: int,
    idx: Option<int>,
    activate: ActivateWindow,
)
    requires
        s.coherent(),
        s.monitors.len() > 0 ==> 0 <= s.focused < s.monitors.len(),
        0 <= mon2 < s.monitors.len(),
        s.move_to_output(window, mon2, idx, activate).fits(),
    ensures
        s.move_to_output(window, mon2, idx, activate).coherent(),
{
    lemma_command_place(s, window);
    if let Some((mon, from)) = s.command_place(window) {
        let to = match idx {
            Some(i) => i,
            None => s.active_place(mon2).1,
        };
        let focus = activate.decided(
            window is None || (mon == s.focused && s.active_window_on(mon) == window),
        );
        let how = if focus {
            ActivateWindow::Yes
        } else {
            ActivateWindow::No
        };
        if !((mon == mon2 && from == to) || s.view_len(mon2) <= to || s.workspace_at(mon, from) is None
            || s.workspace_at(mon, from).unwrap().tile(window) is None) {
            let r = s.carry(mon, from, window, mon2, to, how);
            let f = LayoutModel {
                focused: if focus {
                    mon2
                } else {
                    r.focused
                },
                ..r
            };
            crate::moves::lemma_carry_leads(s, mon, from, window, mon2, to, how);
            crate::moves::lemma_tidy_leads(f, mon);
            assert(s.move_to_output(window, mon2, idx, activate) == f.tidy(mon));
            lemma_carry(s, mon, from, window, mon2, to, how);
            assert(f.coherent());
            lemma_tidy(f, mon);
        }
    }
}

/// Moving the focused window one workspace up or down keeps the layout coherent.
pub proof fn law_moving_by_one_keeps_coherence(s: LayoutModel, focus: bool)
    requires
        s.coherent(),
        s.monitors.len() > 0 ==> 0 <= s.focused < s.monitors.len(),
    ensures
        s.move_up(focus).fits() ==> s.move_up(focus).coherent(),
        s.move_down(focus).fits() ==> s.move_down(focus).coherent(),
{
    if s.monitors.len() > 0 {
        let mon = s.focused;
        let from = s.active_place(mon).1;
        let how = if focus {
            ActivateWindow::Yes
        } else {
            ActivateWindow::Smart
        };
        if from != 0 && s.move_up(focus).fits() {
            lemma_carry(s, mon, from, None, mon, from - 1, how);
        }
        if !(from + 1 >= s.view_len(mon)) && s.move_down(focus).fits() {
            lemma_carry(s, mon, from, None, mon, from + 1, how);
        }
    }
}

/// Moving the focused window to a new workspace keeps the layout coherent.
pub proof fn law_moving_to_new_keeps_coherence(s: LayoutModel, focus: bool, below: int)
    requires
        s.coherent(),
        s.monitors.len() > 0 ==> 0 <= s.focused < s.monitors.len(),
        s.move_new(focus, below).fits(),
        0 <= below,
    ensures
        s.move_new(focus, below).coherent(),
{
    if s.monitors.len() > 0 {
        let mon = s.focused;
        let a = s.active_place(mon).1;
        let idx = a + below;
        let how = if focus {
            ActivateWindow::Yes
        } else {
            ActivateWindow::Smart
        };
        let n = s.view_len(mon);
        let leading = s.monitors[mon].empty_workspace_above_first;
        if let Some(w) = s.workspace_at(mon, a) {
            if let Some(t) = w.active_tile() {
                let q = s.pool.remove_window(w.id, t.window.id);
                let s1 = LayoutModel { pool: q, ..s };
                lemma_removed_wf(s.pool, w.id, t.window.id);
                lemma_alike_coherent(s, q);
                match insert_target(leading, idx, n) {
                    BookendResolution::ReuseTop => {
                        lemma_place_resolved(s1, mon, 0, alone(t), how, None, true);
                    },
                    BookendResolution::ReuseTrailing => {
                        lemma_place_resolved(s1, mon, n - 1, alone(t), how, None, true);
                    },
                    BookendResolution::InsertAt(i) => {
                        let s2 = s1.add_workspace_at(mon, i as int);
                        crate::moves::lemma_place_resolved_leads(
                            s2,
                            mon,
                            i as int,
                            alone(t),
                            how,
                            None,
                            true,
                        );
                        lemma_add_workspace(s1, mon, i as int);
                        lemma_place_resolved(s2, mon, i as int, alone(t), how, None, true);
                    },
                }
            }
        }
    }
}

/// Adding an empty workspace to a view keeps the layout coherent.
pub proof fn lemma_add_workspace(s: LayoutModel, mon: int, pos: int)
    requires
        s.coherent(),
        0 <= mon < s.monitors.len(),
        match s.active_view(s.monitors[mon].output.id) {
            Some(v) => 0 <= pos <= v.ids.len(),
            None => true,
        },
        s.add_workspace_at(mon, pos).fits(),
    ensures
        s.add_workspace_at(mon, pos).coherent(),
{
    lemma_mint_into(s, mon, s.acts.active, pos);
}

/// Replacing one workspace by a version of it with the same activities keeps the layout coherent.
pub proof fn lemma_put_keeps(s: LayoutModel, id: WorkspaceId, w: WorkspaceModel)
    requires
        s.coherent(),
        match s.pool.get(id) {
            Some(old) => w.id == old.id && w.activities == old.activities,
            None => true,
        },
    ensures
        (LayoutModel { pool: s.pool.put(id, w), ..s }).coherent(),
{
    lemma_put_alike(s.pool, id, w);
    lemma_alike_coherent(s, s.pool.put(id, w));
}

/// Making a workspace a monitor's own keeps the layout coherent.
pub proof fn lemma_claim(s: LayoutModel, mon: int, id: WorkspaceId)
    requires
        s.coherent(),
    ensures
        s.claim(mon, id).coherent(),
        s.claim(mon, id).acts == s.acts,
        s.claim(mon, id).monitors == s.monitors,
{
    if let Some(w) = s.pool.get(id) {
        lemma_put_keeps(
            s,
            id,
            WorkspaceModel { output_id: Some(s.monitors[mon].output.id), ..w },
        );
    }
}

/// Putting a column on a workspace keeps the layout coherent.
pub proof fn lemma_put_column(
    s: LayoutModel,
    mon: int,
    idx: int,
    column: Seq<Tile>,
    head: Option<WindowId>,
    activate: bool,
)
    requires
        s.coherent(),
        0 <= mon < s.monitors.len(),
    ensures
        s.put_column(mon, idx, column, head, activate).coherent(),
{
    if let Some(v) = s.active_view(s.monitors[mon].output.id) {
        if 0 <= idx < v.ids.len() {
            let id = v.ids[idx];
            let s1 = LayoutModel { pool: s.pool.add_column(id, column, head, activate), ..s };
            if let Some(w) = s.pool.get(id) {
                lemma_put_keeps(s, id, w.add_column(column, head, activate));
            }
            lemma_claim(s1, mon, id);
            lemma_focus_on(s1.claim(mon, id), mon, idx);
        }
    }
}

/// Moving a column from one workspace to another keeps the layout coherent.
pub proof fn lemma_carry_column(s: LayoutModel, mon: int, from: int, mon2: int, to: int, activate: bool)
    requires
        s.coherent(),
        0 <= mon2 < s.monitors.len(),
    ensures
        s.carry_column(mon, from, mon2, to, activate).coherent(),
{
    if let Some(w) = s.workspace_at(mon, from) {
        if let Some(column) = w.active_column() {
            let s1 = LayoutModel { pool: s.pool.take_active_column(w.id), ..s };
            if let Some(x) = s.pool.get(w.id) {
                lemma_put_keeps(s, w.id, x.take_active_column());
            }
            lemma_put_column(s1, mon2, to, column, w.active, activate);
        }
    }
}

/// Moving a column within a monitor keeps the layout coherent.
pub proof fn lemma_shift_column(s: LayoutModel, mon: int, to: int, activate: bool, smart: ActivateWindow)
    requires
        s.coherent(),
        0 <= mon < s.monitors.len(),
        s.shift_column(mon, to, activate, smart).fits(),
    ensures
        s.shift_column(mon, to, activate, smart).coherent(),
{
    let from = s.active_place(mon).1;
    if let Some(w) = s.workspace_at(mon, from) {
        if to != from {
            if w.floating_is_active() {
                lemma_carry(s, mon, from, None, mon, to, smart);
            } else {
                lemma_carry_column(s, mon, from, mon, to, activate);
            }
        }
    }
}

/// Moving the focused column one workspace up or down keeps the layout coherent.
pub proof fn law_moving_columns_by_one_keeps_coherence(s: LayoutModel, activate: bool)
    requires
        s.coherent(),
        s.monitors.len() > 0 ==> 0 <= s.focused < s.monitors.len(),
    ensures
        s.column_up(activate).fits() ==> s.column_up(activate).coherent(),
        s.column_down(activate).fits() ==> s.column_down(activate).coherent(),
{
    if s.monitors.len() > 0 {
        let mon = s.focused;
        let from = s.active_place(mon).1;
        let how = if activate {
            ActivateWindow::Yes
        } else {
            ActivateWindow::Smart
        };
        if s.column_up(activate).fits() {
            if from == 0 {
                law_normalize_adds_only(s);
            } else {
                let r = s.shift_column(mon, from - 1, activate, how);
                crate::bookends::lemma_normalize_leads(r);
                lemma_shift_column(s, mon, from - 1, activate, how);
                law_normalize_adds_only(r);
            }
        }
        if !s.column_down(activate).fits() {
        } else if from + 1 >= s.view_len(mon) {
            law_normalize_adds_only(s);
        } else {
            let r = s.shift_column(mon, from + 1, activate, how);
            crate::bookends::lemma_normalize_leads(r);
            lemma_shift_column(s, mon, from + 1, activate, how);
            law_normalize_adds_only(r);
        }
    }
}

/// Moving the focused column to another workspace of its monitor keeps the layout coherent.
pub proof fn law_moving_columns_within_keeps_coherence(s: LayoutModel, idx: int, activate: bool)
    requires
        s.coherent(),
        0 <= s.focused < s.monitors.len(),
        s.move_column_to_workspace(idx, activate).fits(),
    ensures
        s.move_column_to_workspace(idx, activate).coherent(),
{
    let mon = s.focused;
    let from = s.active_place(mon).1;
    let n = s.view_len(mon);
    let to = if idx < n {
        idx
    } else {
        n - 1
    };
    if let Some(w) = s.workspace_at(mon, from) {
        if to == from {
            law_normalize_adds_only(s);
        } else if w.floating_is_active() {
            let how = if activate {
                ActivateWindow::Smart
            } else {
                ActivateWindow::No
            };
            let r = s.shift_window(mon, from, None, idx, how);
            crate::bookends::lemma_normalize_leads(r);
            lemma_shift_window(s, mon, from, None, idx, how);
            law_normalize_adds_only(r);
        } else {
            let r = s.carry_column(mon, from, mon, to, activate);
            lemma_carry_column(s, mon, from, mon, to, activate);
            law_normalize_adds_only(r);
        }
    }
}

/// Moving the focused column to another output keeps the layout coherent.
pub proof fn law_moving_columns_across_keeps_coherence(
    s: LayoutModel,
    mon2: int,
    idx: Option<int>,
    activate: bool,
)
    requires
        s.coherent(),
        0 <= s.focused < s.monitors.len(),
        0 <= mon2 < s.monitors.len(),
        s.move_column_to_output(mon2, idx, activate).fits(),
    ensures
        s.move_column_to_output(mon2, idx, activate).coherent(),
{
    let mon = s.focused;
    let from = s.active_place(mon).1;
    let n = s.view_len(mon2);
    let want = match idx {
        Some(i) => i,
        None => s.active_place(mon2).1,
    };
    let to = if want < n {
        want
    } else {
        n - 1
    };
    if let Some(w) = s.workspace_at(mon, from) {
        if w.floating_is_active() {
            law_moving_across_keeps_coherence(s, None, mon2, None, ActivateWindow::Smart);
        } else if w.active_column() is Some {
            let r = s.carry_column(mon, from, mon2, to, activate);
            let f = LayoutModel {
                focused: if activate {
                    mon2
                } else {
                    r.focused
                },
                ..r
            };
            lemma_carry_column(s, mon, from, mon2, to, activate);
            assert(f.coherent());
            law_normalize_adds_only(f);
        }
    }
}

/// Adding a window to a workspace keeps the layout coherent.
pub proof fn lemma_add_to(
    s: LayoutModel,
    id: WorkspaceId,
    tile: Tile,
    activate: ActivateWindow,
    beside: Option<WindowId>,
)
    requires
        s.coherent(),
    ensures
        s.add_to(id, tile, activate, beside).coherent(),
{
    if let Some(w) = s.pool.get(id) {
        let focus = takes_focus(w, activate, beside);
        let u = w.add_tile(tile, focus);
        lemma_put_keeps(s, id, u);
        lemma_get(s.pool, id);
        crate::coherence::lemma_get_put(s.pool, id, u);
        if let Some(out) = s.holding_output(id) {
            let t = LayoutModel { pool: s.pool.put(id, u), ..s };
            lemma_put_keeps(t, id, WorkspaceModel { output_id: Some(out), ..u });
        }
    }
}

/// Moving a window to a workspace that another activity shows keeps the layout coherent.
pub proof fn law_moving_out_of_sight_keeps_coherence(
    s: LayoutModel,
    window: Option<WindowId>,
    id: WorkspaceId,
    activate: ActivateWindow,
)
    requires
        s.coherent(),
        s.pool_move(window, id.0) is Ok,
        s.pool_move(window, id.0)->Ok_0 is MovedDormant,
        s.move_to_pool(window, id, activate).fits(),
    ensures
        s.move_to_pool(window, id, activate).coherent(),
{
    let (mon, from) = s.pool_source(window).unwrap();
    if let Some(w) = window {
        lemma_find_from(s.monitors, s.showing_window(w), 0);
    }
    let w = s.workspace_at(mon, from).unwrap();
    let t = w.tile(window).unwrap();
    let how = if activate is No {
        ActivateWindow::No
    } else {
        ActivateWindow::Yes
    };
    let q = s.pool.remove_window(w.id, t.window.id);
    let s1 = LayoutModel { pool: q, ..s };
    let s2 = s1.add_to(id, alone(t), how, None);
    let s3 = s2.normalize();
    crate::bookends::lemma_normalize_leads(s2);
    crate::moves::lemma_tidy_leads(s3, mon);
    lemma_removed_wf(s.pool, w.id, t.window.id);
    lemma_alike_coherent(s, q);
    lemma_add_to(s1, id, alone(t), how, None);
    law_normalize_adds_only(s2);
    lemma_tidy(s3, mon);
}

/// Opening a new workspace beside the focused one keeps the layout coherent.
pub proof fn law_opening_beside_keeps_coherence(s: LayoutModel, below: int)
    requires
        s.coherent(),
        s.monitors.len() > 0 ==> 0 <= s.focused < s.monitors.len(),
        0 <= below,
        s.open_beside(below).fits(),
    ensures
        s.open_beside(below).coherent(),
{
    if s.monitors.len() > 0 {
        let mon = s.focused;
        let idx = s.active_place(mon).1 + below;
        let n = s.view_len(mon);
        if n > 0 {
            let v = s.active_view(s.monitors[mon].output.id).unwrap();
            lemma_find_from(v.ids, crate::search::equal_to(v.active), 0);
            match insert_target(s.monitors[mon].empty_workspace_above_first, idx, n) {
                BookendResolution::ReuseTop => {
                    lemma_focus_on(s, mon, 0);
                },
                BookendResolution::ReuseTrailing => {
                    lemma_focus_on(s, mon, n - 1);
                },
                BookendResolution::InsertAt(i) => {
                    let r = s.add_workspace_at(mon, i as int);
                    crate::windows::lemma_focus_on_leads(r, mon, i as int);
                    lemma_add_workspace(s, mon, i as int);
                    lemma_focus_on(r, mon, i as int);
                },
            }
        }
    }
}

/// Focusing a window keeps the layout coherent.
pub proof fn law_activating_keeps_coherence(s: LayoutModel, w: WindowId)
    requires
        s.coherent(),
    ensures
        s.activate_window(w).coherent(),
{
    if !s.is_dragged(w) {
        lemma_find_from(s.monitors, s.showing_window(w), 0);
        if let Some((mon, idx)) = s.window_place(w) {
            let v = s.active_view(s.monitors[mon].output.id).unwrap();
            let q = s.pool.activate_window(v.ids[idx], w);
            if let Some(ws) = s.pool.get(v.ids[idx]) {
                lemma_put_keeps(s, v.ids[idx], ws.activate_window(w));
            }
            let t = LayoutModel { pool: q, focused: mon, ..s };
            assert((LayoutModel { pool: q, ..s }).coherent());
            assert(t.coherent());
            lemma_focus_on(t, mon, idx);
        }
    }
}

/// A window that the active activity shows gets the focus when it is activated: its workspace
/// becomes the active one, unless the user is swiping past it, and the window the active one there.
/// No other workspace changes.
pub proof fn law_activating_focuses(s: LayoutModel, w: WindowId)
    requires
        s.coherent(),
        !s.is_dragged(w),
        s.window_place(w) is Some,
    ensures
        ({
            let (mon, idx) = s.window_place(w).unwrap();
            let id = s.active_view(s.monitors[mon].output.id).unwrap().ids[idx];
            let t = s.activate_window(w);
            &&& t.focused == mon
            &&& t.pool.get(id) == Some(
                WorkspaceModel { active: Some(w), ..s.pool.get(id).unwrap() },
            )
            &&& forall|x: WorkspaceId| x != id ==> #[trigger] t.pool.get(x) == s.pool.get(x)
            &&& !(s.monitors[mon].workspace_switch matches Some(WorkspaceSwitch::Gesture { .. }))
                ==> t.active_workspace() == Some(id)
        }),
{
    let (mon, idx) = s.window_place(w).unwrap();
    let out = s.monitors[mon].output.id;
    lemma_find_from(s.monitors, s.showing_window(w), 0);
    assert(s.showing_window(w)(s.monitors[mon]));
    let v = s.active_view(out).unwrap();
    lemma_find_from(v.ids, crate::windows::id_having(s.pool, w), 0);
    let id = v.ids[idx];
    assert(crate::windows::id_having(s.pool, w)(v.ids[idx]));
    let ws = s.pool.get(id).unwrap();
    lemma_get(s.pool, id);
    crate::coherence::lemma_get_put(s.pool, id, ws.activate_window(w));
    let r = LayoutModel { pool: s.pool.activate_window(id, w), focused: mon, ..s };
    let t = s.activate_window(w);
    assert(r.active_view(out) == Some(v));
    crate::transfer::lemma_view_after_set(r.acts, r.acts.active, out, v.activate(idx));
    crate::windows::lemma_focus_on_leads(r, mon, idx);
}

/// Switching workspaces keeps the layout coherent and changes no workspace.
pub proof fn law_switching_workspaces_keeps_coherence(s: LayoutModel, idx: int)
    requires
        s.coherent(),
        s.monitors.len() > 0 ==> 0 <= s.focused < s.monitors.len(),
    ensures
        s.switch_to(idx).coherent(),
        s.switch_to(idx).pool == s.pool,
        s.switch_back().coherent(),
        s.switch_back().pool == s.pool,
        s.switch_to_or_back(idx).coherent(),
        s.switch_to_or_back(idx).pool == s.pool,
        s.switch_up().coherent(),
        s.switch_up().pool == s.pool,
        s.switch_down().coherent(),
        s.switch_down().pool == s.pool,
{
    if s.monitors.len() > 0 {
        let mon = s.focused;
        assert forall|i: int| #[trigger] s.focus_on(mon, i).coherent() && s.focus_on(mon, i).pool
            == s.pool by {
            lemma_focus_on(s, mon, i);
        }
        let n = s.view_len(mon);
        let a = s.active_place(mon).1;
        assert(s.focus_on(mon, n - 1).coherent());
        assert(s.focus_on(mon, idx).coherent());
        assert(s.focus_on(mon, a + 1).coherent());
        assert(s.focus_on(mon, a - 1).coherent());
        assert(s.focus_on(mon, 0).coherent());
        if let Some(i) = s.previous_place() {
            assert(s.focus_on(mon, i).coherent());
        }
    }
}

} // verus!
