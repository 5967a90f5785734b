//! Adding windows, naming workspaces and dragging keeps the layout coherent.

use vstd::prelude::*;

use crate::carrying::{
    lemma_add_to, lemma_add_workspace, lemma_claim, lemma_place_resolved, lemma_put_keeps,
    lemma_tidy,
};
use crate::coherence::{
    alike, lemma_alike_coherent, lemma_get, lemma_push_coherent, lemma_put_alike, lemma_view_is_ok,
    lemma_with_view_coherent, member_ok, view_ok,
};
use crate::gestures::Reached;
use crate::ids::{ActivityId, OutputId, WindowId, WorkspaceId};
use crate::interactive::{DragMotion, DropPlace, InsertWorkspace};
use crate::keeping::law_normalize_adds_only;
use crate::keeping_outputs::lemma_alike_trans;
use crate::keeping_views::lemma_clean_up;
use crate::layout::{
    DndData, DndHoldTarget, InteractiveMoveData, InteractiveMoveState, LayoutModel,
};
use crate::monitor::Monitor;
use crate::moves::{alone, insert_target, BookendResolution};
use crate::placing::{lemma_focus_on, lemma_lock_all};
use crate::pool::PoolModel;
use crate::search::{equal_to, find, lemma_find_from};
use crate::tending::{law_removing_a_window_keeps_coherence, lemma_unpark};
use crate::windows::{id_having, ActivateWindow, AddWindowTarget};
use crate::workspace::{Output, Tile, WorkspaceModel};

verus! {

/// A place for a window is on a monitor.
pub proof fn lemma_add_place(s: LayoutModel, target: AddWindowTarget)
    requires
        0 <= s.focused < s.monitors.len(),
    ensures
        match s.add_place(target) {
            Some(((mon, _), _)) => 0 <= mon < s.monitors.len(),
            None => true,
        },
{
    match target {
        AddWindowTarget::Auto => {},
        AddWindowTarget::Output(out) => {
            lemma_find_from(s.monitors, crate::layout::on_output(out), 0);
        },
        AddWindowTarget::Workspace(id) => {
            lemma_find_from(s.monitors, s.showing(id), 0);
        },
        AddWindowTarget::NextTo(w) => {
            lemma_find_from(s.monitors, s.showing_window(w), 0);
            if let Some(InteractiveMoveState::Moving(d)) = s.moving {
                lemma_find_from(s.monitors, crate::layout::on_output(d.output.id), 0);
            }
        },
    }
}

/// Parking a window keeps the layout coherent.
pub proof fn lemma_park_window(
    s: LayoutModel,
    tile: Tile,
    target: AddWindowTarget,
    activate: ActivateWindow,
)
    requires
        s.coherent(),
        s.monitors.len() == 0,
        s.park_window(tile, target, activate).fits(),
    ensures
        s.park_window(tile, target, activate).coherent(),
{
    let loose = s.ensure_parked();
    let fresh = s.parked.len() == 0 && !(target is Workspace) && !(target is NextTo
        && !s.is_dragged(target->NextTo_0));
    if fresh {
        let w = WorkspaceModel {
            bound: None,
            ..WorkspaceModel::fresh(s.pool.next_id(), OutputId(0), s.acts.active)
        };
        assert(loose.pool.next == s.pool.next + 1);
        assert(w.activities.contains(s.acts.active)) by {
            assert(w.activities[0] == s.acts.active);
        }
        assert(member_ok(s.acts, w));
        lemma_push_coherent(s, w);
        crate::coherence::lemma_push(s.pool, w);
        assert(loose.pool == s.pool.mint_loose(s.acts.active));
        assert(loose.pool.has(loose.parked[0]));
        assert(loose.coherent());
    }
    match target {
        AddWindowTarget::Workspace(id) => {
            lemma_add_to(s, id, tile, activate, None);
        },
        AddWindowTarget::NextTo(w) => {
            if s.is_dragged(w) {
                lemma_add_to(loose, loose.parked[0], tile, activate, None);
            } else {
                if let Some(i) = find(s.parked, id_having(s.pool, w)) {
                    lemma_add_to(s, s.parked[i], tile, activate, Some(w));
                }
            }
        },
        _ => {
            lemma_add_to(loose, loose.parked[0], tile, activate, None);
        },
    }
}

/// Adding a window, wherever it goes, keeps the layout coherent.
pub proof fn law_adding_keeps_coherence(
    s: LayoutModel,
    tile: Tile,
    target: AddWindowTarget,
    activate: ActivateWindow,
)
    requires
        s.coherent(),
        s.monitors.len() > 0 ==> 0 <= s.focused < s.monitors.len(),
        s.add_window(tile, target, activate).fits(),
    ensures
        s.add_window(tile, target, activate).coherent(),
{
    if s.monitors.len() == 0 {
        lemma_park_window(s, tile, target, activate);
    } else if s.is_hidden_target(target) {
        let id = target->Workspace_0;
        let t = s.add_to(id, tile, activate, None);
        lemma_add_to(s, id, tile, activate, None);
        if s.hidden_monitor(id) is Some {
            law_normalize_adds_only(t);
        }
    } else {
        lemma_add_place(s, target);
        if let Some(((mon, idx), beside)) = s.add_place(target) {
            let t = s.place_resolved(mon, idx, tile, activate, beside, true);
            let f = LayoutModel {
                focused: if activate is Yes {
                    mon
                } else {
                    t.focused
                },
                ..t
            };
            crate::bookends::lemma_normalize_leads(f);
            lemma_place_resolved(s, mon, idx, tile, activate, beside, true);
            assert(f.coherent());
            law_normalize_adds_only(f);
        }
    }
}

/// Naming a workspace gives it that name, changes no other workspace, and keeps the layout
/// coherent.
pub proof fn law_naming_names_only(s: LayoutModel, id: WorkspaceId, name: Seq<char>)
    requires
        s.coherent(),
        s.pool.has(id),
        s.name_workspace(id, name).fits(),
    ensures
        ({
            let t = s.name_workspace(id, name);
            &&& t.coherent()
            &&& t.pool.get(id) == Some(
                WorkspaceModel { name: Some(name), ..s.pool.get(id).unwrap() },
            )
            &&& forall|x: WorkspaceId| #[trigger]
                s.pool.has(x) && x != id ==> t.pool.get(x) == s.pool.get(x)
        }),
{
    let w = s.pool.get(id).unwrap();
    let u = WorkspaceModel { name: Some(name), ..w };
    let s1 = LayoutModel { pool: s.pool.set_name(id, Some(name)), ..s };
    lemma_get(s.pool, id);
    lemma_put_keeps(s, id, u);
    crate::coherence::lemma_get_put(s.pool, id, u);
    lemma_find_from(s1.monitors, s1.held_on(id), 0);
    assert forall|x: WorkspaceId| #[trigger] s.pool.has(x) implies s1.pool.has(x) by {
        if x != id {
            assert(s1.pool.get(x) == s.pool.get(x));
        }
    }
    if let Some(mon) = s1.monitor_holding(id) {
        let m = s1.monitors[mon];
        let v = s1.active_view(m.output.id);
        let top = m.empty_workspace_above_first && v is Some && v.unwrap().ids.len() > 0
            && v.unwrap().ids[0] == id;
        let bottom = v is Some && v.unwrap().ids.len() > 0 && v.unwrap().ids.last() == id;
        let s2 = if top {
            s1.add_workspace_top(mon)
        } else {
            s1
        };
        let s3 = if bottom {
            s2.add_workspace_bottom(mon)
        } else {
            s2
        };
        crate::bookends::lemma_mint_into_leads(s1, mon, s1.acts.active, 0);
        let n = match s2.active_view(m.output.id) {
            Some(v) => v.ids.len() as int,
            None => 0,
        };
        crate::bookends::lemma_mint_into_leads(s2, mon, s2.acts.active, n);
        crate::bookends::lemma_normalize_leads(s3);
        if top {
            crate::keeping::lemma_mint_into(s1, mon, s1.acts.active, 0);
        }
        assert(s2.monitors[mon].output == m.output);
        if bottom {
            if s2.active_view(m.output.id) is Some {
                crate::keeping::lemma_mint_into(s2, mon, s2.acts.active, n);
            }
        }
        assert(s3.coherent());
        law_normalize_adds_only(s3);
        assert forall|x: WorkspaceId| #[trigger] s.pool.has(x) implies s3.normalize().pool.get(x)
            == s1.pool.get(x) by {
            assert(s1.pool.has(x));
            assert(s2.pool.get(x) == s1.pool.get(x));
            assert(s2.pool.has(x));
            assert(s3.pool.get(x) == s2.pool.get(x));
            assert(s3.pool.has(x));
        }
    }
}

/// Taking the name of a workspace away keeps the layout coherent.
pub proof fn law_unnaming_keeps_coherence(s: LayoutModel, id: WorkspaceId)
    requires
        s.coherent(),
        s.waits_unseen(),
    ensures
        s.unname(id).coherent(),
{
    let p = s.pool.set_name(id, None);
    let t = LayoutModel { pool: p, ..s };
    if let Some(w) = s.pool.get(id) {
        lemma_put_keeps(s, id, WorkspaceModel { name: None, ..w });
    }
    lemma_find_from(s.monitors, s.showing(id), 0);
    match s.monitor_showing(id) {
        Some(mon) => {
            lemma_tidy(t, mon);
        },
        None => {
            lemma_find_from(s.parked, equal_to(id), 0);
            if let Some(i) = find(s.parked, equal_to(id)) {
                assert(t.waits_unseen()) by {
                    assert forall|j: int| 0 <= j < t.parked.len() implies t.unseen(
                        #[trigger] t.parked[j],
                    ) by {
                        assert(s.unseen(s.parked[j]));
                        assert forall|a: ActivityId, o: OutputId| !(#[trigger] t.shows_on(
                            a,
                            o,
                            t.parked[j],
                        )) by {
                            assert(!s.shows_on(a, o, s.parked[j]));
                        }
                    }
                }
                lemma_unpark(t, i);
            }
        },
    }
}

/// What touches neither activities nor views keeps the layout coherent.
pub proof fn lemma_frame(s: LayoutModel, t: LayoutModel)
    requires
        s.coherent(),
        t.acts == s.acts,
        t.parked == s.parked,
        t.monitors.len() == s.monitors.len(),
        alike(s.pool, t.pool),
    ensures
        t.coherent(),
{
    lemma_alike_coherent(s, t.pool);
    let g = LayoutModel { pool: t.pool, ..s };
    assert(g.coherent());
    assert forall|i: int| 0 <= i < t.parked.len() implies t.pool.has(#[trigger] t.parked[i]) by {
        assert(g.pool.has(g.parked[i]));
    }
}

/// Grabbing a window, dragging and dropping something else, and opening or closing the overview
/// keep the layout coherent.
pub proof fn law_pointing_keeps_coherence(s: LayoutModel, w: WindowId, output: Output, open: bool)
    requires
        s.coherent(),
    ensures
        s.begin_move(w).coherent(),
        s.dnd_over(output).coherent(),
        s.dnd_done().coherent(),
        s.set_overview(open).coherent(),
        s.settle_overview().coherent(),
{
    lemma_lock_all(s.pool, true);
    lemma_lock_all(s.pool, false);
    assert(alike(s.pool, s.pool));
    lemma_frame(s, s.begin_move(w));
    lemma_frame(s, s.dnd_over(output));
    lemma_frame(s, s.dnd_done());
    lemma_frame(s, s.set_overview(open));
    lemma_frame(s, s.settle_overview());
}

/// Dragging a window keeps the layout coherent.
pub proof fn law_dragging_keeps_coherence(s: LayoutModel, w: WindowId, m: DragMotion)
    requires
        s.coherent(),
        s.shown_once(),
        s.waits_unseen(),
    ensures
        s.update_move(w, m).coherent(),
{
    assert(alike(s.pool, s.pool));
    match s.moving {
        Some(InteractiveMoveState::Starting { window_id }) => {
            if !(window_id != w || (!s.floats_at_home(w) && !m.far)) {
                let s0 = LayoutModel { moving: None, ..s };
                lemma_frame(s, s0);
                assert forall|a: ActivityId, o: OutputId, x: WorkspaceId| #[trigger]
                    s0.shows_on(a, o, x) == s.shows_on(a, o, x) by {}
                assert(s0.shown_once());
                assert(s0.waits_unseen()) by {
                    assert forall|i: int| 0 <= i < s0.parked.len() implies s0.unseen(
                        #[trigger] s0.parked[i],
                    ) by {
                        assert(s.unseen(s.parked[i]));
                    }
                }
                law_removing_a_window_keeps_coherence(s0, w);
                let s1 = s0.take_window(w);
                lemma_lock_all(s1.pool, false);
                assert(alike(s1.pool, s1.pool));
                lemma_frame(s1, s.pull_out(w, m));
            }
        },
        Some(InteractiveMoveState::Moving(d)) => {
            lemma_frame(s, s.update_move(w, m));
        },
        None => {},
    }
}

/// Dropping a window on a workspace keeps the layout coherent.
pub proof fn lemma_land(s: LayoutModel, mon: int, idx: int, tile: Tile, column: Option<WindowId>)
    requires
        s.coherent(),
        0 <= mon < s.monitors.len(),
        s.land(mon, idx, tile, column).fits(),
    ensures
        s.land(mon, idx, tile, column).coherent(),
{
    let allow = !s.overview_open;
    match column {
        Some(leader) => {
            if let Some(v) = s.active_view(s.monitors[mon].output.id) {
                let id = v.ids[idx];
                let t = Tile { column: leader, ..tile };
                let s1 = LayoutModel { pool: s.pool.add_tile(id, t, true), ..s };
                if let Some(x) = s.pool.get(id) {
                    lemma_put_keeps(s, id, x.add_tile(t, true));
                }
                lemma_claim(s1, mon, id);
                lemma_focus_on(s1.claim(mon, id), mon, idx);
            }
        },
        None => {
            lemma_place_resolved(s, mon, idx, alone(tile), ActivateWindow::Yes, None, allow);
        },
    }
}

/// Ending a drag keeps the layout coherent.
pub proof fn law_dropping_keeps_coherence(s: LayoutModel, w: WindowId, p: DropPlace)
    requires
        s.coherent(),
        match s.moving {
            Some(InteractiveMoveState::Moving(d)) => d.tile.window.id == w ==> s.let_go(d).can_drop(
                d,
                p,
            ),
            _ => true,
        },
        s.end_move(w, p).fits(),
    ensures
        s.end_move(w, p).coherent(),
{
    lemma_lock_all(s.pool, false);
    assert(alike(s.pool, s.pool));
    lemma_frame(s, s.release());
    if let Some(InteractiveMoveState::Moving(d)) = s.moving {
        if d.tile.window.id == w {
            let t = s.let_go(d);
            lemma_frame(s, t);
            lemma_drop_at(t, d, p);
        }
    }
}

/// Dropping the dragged window keeps the layout coherent.
pub proof fn lemma_drop_at(s: LayoutModel, d: InteractiveMoveData, p: DropPlace)
    requires
        s.coherent(),
        s.can_drop(d, p),
        s.drop_at(d, p).fits(),
    ensures
        s.drop_at(d, p).coherent(),
{
    let mon = s.drop_monitor(d);
    let n = s.view_len(mon);
    let column = if d.tile.floating {
        None
    } else {
        p.column
    };
    if s.monitors.len() == 0 {
        let t = alone(d.tile);
        lemma_park_window(s, t, AddWindowTarget::Auto, ActivateWindow::Yes);
    } else if s.monitor_pos(d.output.id) is None {
        lemma_land(s, mon, 0, d.tile, column);
    } else {
        match p.workspace {
            InsertWorkspace::Existing(id) => {
                let at = s.active_view(s.monitors[mon].output.id).unwrap().position_of(id).unwrap();
                lemma_land(s, mon, at, d.tile, column);
            },
            InsertWorkspace::NewAt(at) => match insert_target(
                s.monitors[mon].empty_workspace_above_first,
                at as int,
                n,
            ) {
                BookendResolution::ReuseTop => {
                    lemma_land(s, mon, 0, d.tile, None);
                },
                BookendResolution::ReuseTrailing => {
                    lemma_land(s, mon, n - 1, d.tile, None);
                },
                BookendResolution::InsertAt(i) => {
                    let t = s.add_workspace_at(mon, i as int);
                    crate::bookends::lemma_mint_into_leads(s, mon, s.acts.active, i as int);
                    crate::moves::lemma_place_resolved_leads(
                        t,
                        mon,
                        i as int,
                        alone(d.tile),
                        ActivateWindow::Yes,
                        None,
                        !t.overview_open,
                    );
                    lemma_add_workspace(s, mon, i as int);
                    lemma_land(t, mon, i as int, d.tile, None);
                },
            },
        }
    }
}

/// Swiping between workspaces keeps the layout coherent.
pub proof fn law_swiping_keeps_coherence(
    s: LayoutModel,
    out: OutputId,
    is_touchpad: bool,
    reached: Reached,
    landings: Seq<usize>,
    n: int,
)
    requires
        s.coherent(),
        n <= s.monitors.len(),
    ensures
        s.begin_swipe(out, is_touchpad, reached, landings, n).coherent(),
        s.begin_swipe(out, is_touchpad, reached, landings, n).monitors.len() == s.monitors.len(),
    decreases n,
{
    if n > 0 {
        law_swiping_keeps_coherence(s, out, is_touchpad, reached, landings, n - 1);
        let t = s.begin_swipe(out, is_touchpad, reached, landings, n - 1);
        assert(alike(t.pool, t.pool));
        if t.monitors[n - 1].output.id == out {
            lemma_frame(t, t.swipe(n - 1, reached, is_touchpad));
        } else {
            law_letting_go_keeps_coherence(t, n - 1, landings[n - 1] as int);
        }
    }
}

/// Ending a swipe between workspaces keeps the layout coherent and changes no workspace.
pub proof fn law_letting_go_keeps_coherence(s: LayoutModel, mon: int, idx: int)
    requires
        s.coherent(),
        0 <= mon < s.monitors.len(),
        0 <= idx,
    ensures
        s.end_swipe(mon, idx).coherent(),
        s.end_swipe(mon, idx).pool == s.pool,
        s.end_swipe(mon, idx).monitors.len() == s.monitors.len(),
{
    let m = s.monitors[mon];
    if let Some(v) = s.active_view(m.output.id) {
        if idx < v.ids.len() {
            lemma_view_is_ok(s, s.acts.active, m.output.id);
            let u = v.activate(idx);
            assert(v.ids.contains(v.ids[idx]));
            assert(view_ok(s.pool, s.acts.active, u));
            lemma_with_view_coherent(s, s.acts.active, m.output.id, u);
        }
    }
}

/// Activating what a drag rests over keeps the layout coherent.
pub proof fn lemma_activate_held(s: LayoutModel, mon: int, target: DndHoldTarget)
    requires
        s.coherent(),
        0 <= mon < s.monitors.len(),
    ensures
        s.activate_held(mon, target).coherent(),
{
    if let Some(idx) = s.hold_place(mon, target) {
        let m = s.monitors[mon];
        let id = s.active_view(m.output.id).unwrap().ids[idx];
        let s1 = match target {
            DndHoldTarget::Window(w) => LayoutModel { pool: s.pool.activate_window(id, w), ..s },
            DndHoldTarget::Workspace(_) => s,
        };
        if let DndHoldTarget::Window(w) = target {
            if let Some(x) = s.pool.get(id) {
                lemma_put_keeps(s, id, x.activate_window(w));
            }
        }
        assert(s1.coherent());
        let s2 = LayoutModel {
            monitors: s1.monitors.update(mon, Monitor { dnd_scroll: false, ..m }),
            ..s1
        };
        assert(alike(s1.pool, s1.pool));
        lemma_frame(s1, s2);
        lemma_focus_on(s2, mon, idx);
        let s3 = LayoutModel { focused: mon, ..s2.focus_on(mon, idx) };
        assert(alike(s3.pool, s3.pool));
        lemma_frame(s2.focus_on(mon, idx), s3);
        lemma_frame(s3, s3.set_overview(false));
    }
}

/// Ending what has arrived keeps the layout coherent.
pub proof fn lemma_end_arrived(s: LayoutModel, slid: Seq<bool>, arrived: Seq<bool>, n: int)
    requires
        s.coherent(),
        n <= s.monitors.len(),
    ensures
        s.end_arrived(slid, arrived, n).coherent(),
        s.end_arrived(slid, arrived, n).monitors.len() == s.monitors.len(),
    decreases n,
{
    if n > 0 {
        lemma_end_arrived(s, slid, arrived, n - 1);
        let t = s.end_arrived(slid, arrived, n - 1);
        let u = if slid[n - 1] {
            t.end_slide(n - 1)
        } else {
            t
        };
        assert(alike(t.pool, t.pool));
        lemma_frame(t, u);
        let r = u.settle(n - 1);
        lemma_frame(u, r);
        lemma_clean_up(r, n - 1);
        crate::reclaim::lemma_clean_up_leads(r, n - 1);
    }
}

/// A frame keeps the layout coherent.
pub proof fn law_advancing_keeps_coherence(
    s: LayoutModel,
    scrolled: bool,
    target: Option<DndHoldTarget>,
    now: u64,
    opened: bool,
    slid: Seq<bool>,
    arrived: Seq<bool>,
)
    requires
        s.coherent(),
    ensures
        s.advance(scrolled, target, now, opened, slid, arrived).coherent(),
        s.advance_hold(scrolled, target, now).coherent(),
{
    let t = s.advance_hold(scrolled, target, now);
    assert(alike(s.pool, s.pool));
    if let Some(d) = s.dnd {
        let idle = LayoutModel { dnd: Some(DndData { output: d.output, hold: None }), ..s };
        lemma_frame(s, idle);
        lemma_find_from(s.monitors, crate::layout::on_output(d.output.id), 0);
        if let Some(mon) = s.monitor_pos(d.output.id) {
            if !scrolled && target is Some {
                let h = LayoutModel::held(d.hold, target.unwrap(), now);
                lemma_frame(
                    s,
                    LayoutModel { dnd: Some(DndData { output: d.output, hold: Some(h) }), ..s },
                );
                lemma_activate_held(idle, mon, target.unwrap());
            }
        }
    }
    assert(t.coherent());
    let u = if opened {
        t.settle_overview()
    } else {
        t
    };
    assert(alike(t.pool, t.pool));
    lemma_frame(t, u);
    lemma_end_arrived(u, slid, arrived, u.monitors.len() as int);
}

/// Holding views of workspaces still or ending swipes along them changes no activity of theirs.
pub proof fn lemma_attend_alike(
    p: PoolModel,
    ids: Seq<WorkspaceId>,
    active: int,
    lock: Option<bool>,
    overview: bool,
)
    ensures
        alike(p, p.attend(ids, active, lock, overview)),
        alike(p, p.still(ids)),
    decreases ids.len(),
{
    if ids.len() > 0 {
        let rest = ids.drop_last();
        lemma_attend_alike(p, rest, active, lock, overview);
        let q = p.attend(rest, active, lock, overview);
        let r = p.still(rest);
        let id = ids.last();
        if let Some(w) = q.get(id) {
            lemma_put_alike(q, id, WorkspaceModel { view_gesture: None, ..w });
            if let Some(b) = lock {
                lemma_put_alike(q, id, WorkspaceModel { scroll_lock: b, ..w });
            }
        }
        if let Some(w) = r.get(id) {
            lemma_put_alike(r, id, WorkspaceModel { view_gesture: None, ..w });
        }
        lemma_alike_trans(p, q, p.attend(ids, active, lock, overview));
        lemma_alike_trans(p, r, p.still(ids));
    }
}

/// Looking after the monitors keeps the layout coherent.
pub proof fn lemma_attend(s: LayoutModel, n: int)
    requires
        s.coherent(),
        n <= s.monitors.len(),
    ensures
        s.attend(n).coherent(),
        s.attend(n).monitors.len() == s.monitors.len(),
    decreases n,
{
    if n > 0 {
        lemma_attend(s, n - 1);
        let t = s.attend(n - 1);
        let m = t.monitors[n - 1];
        assert(alike(t.pool, t.pool));
        if let Some(v) = t.active_view(m.output.id) {
            lemma_attend_alike(
                t.pool,
                v.ids,
                v.active_position(),
                s.drag_lock(),
                s.overview_open,
            );
        }
        lemma_frame(t, s.attend(n));
    }
}

/// The work that follows an event keeps the layout coherent.
pub proof fn law_refreshing_keeps_coherence(s: LayoutModel, is_active: bool)
    requires
        s.coherent(),
    ensures
        s.refresh(is_active).coherent(),
{
    let t = s.attend(s.monitors.len() as int);
    lemma_attend(s, s.monitors.len() as int);
    lemma_attend_alike(t.pool, t.parked, 0, None, false);
    lemma_frame(t, s.refresh(is_active));
}

} // verus!
