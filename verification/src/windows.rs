//! Windows opening, closing and taking the focus.

use vstd::prelude::*;

use crate::activity::ActivityModel;
use crate::ids::{ActivityId, OutputId, WindowId, WorkspaceId};
use crate::layout::{InteractiveMoveState, Layout, LayoutModel};
use crate::lookup::having;
use crate::monitor::{Monitor, WorkspaceSwitch};
use crate::pool::{PoolModel, WorkspacePool};
use crate::reclaim::doubled;
use crate::view::ViewModel;
use crate::workspace::{Output, Tile, Workspace, WorkspaceModel};

verus! {

/// Whether a window that is added gets the focus.
#[derive(Clone, Copy, Debug, PartialEq, Eq, Structural)]
pub enum ActivateWindow {
    /// It does.
    Yes,
    /// Where it is added decides.
    Smart,
    /// It does not.
    No,
}

impl Default for ActivateWindow {
    fn default() -> (a: ActivateWindow)
        ensures
            a == ActivateWindow::Smart,
    {
        ActivateWindow::Smart
    }
}

impl ActivateWindow {
    /// The answer, given by `f` where the place decides.
    pub fn map_smart(self, f: impl FnOnce() -> bool) -> (b: bool)
        requires
            self is Smart ==> call_requires(f, ()),
        ensures
            match self {
                ActivateWindow::Yes => b,
                ActivateWindow::Smart => call_ensures(f, (), b),
                ActivateWindow::No => !b,
            },
    {
        match self {
            ActivateWindow::Yes => true,
            ActivateWindow::Smart => f(),
            ActivateWindow::No => false,
        }
    }

    /// The answer, which is `smart` where the place decides.
    pub open spec fn decided(self, smart: bool) -> bool {
        match self {
            ActivateWindow::Yes => true,
            ActivateWindow::Smart => smart,
            ActivateWindow::No => false,
        }
    }

    /// The answer, which is `smart` where the place decides.
    pub fn decide(self, smart: bool) -> (b: bool)
        ensures
            b == self.decided(smart),
    {
        let f = || -> (b: bool)
            ensures
                b == smart,
            { smart };
        self.map_smart(f)
    }
}

/// Where a window is added.
#[derive(Clone, Copy, Debug, PartialEq, Eq, Structural)]
pub enum AddWindowTarget {
    /// Wherever the focus is.
    Auto,
    /// On an output.
    Output(OutputId),
    /// On a workspace.
    Workspace(WorkspaceId),
    /// Next to a window.
    NextTo(WindowId),
}

impl Default for AddWindowTarget {
    fn default() -> (t: AddWindowTarget)
        ensures
            t == AddWindowTarget::Auto,
    {
        AddWindowTarget::Auto
    }
}

/// Whether the focused window of `w` fills the screen.
pub open spec fn guarded(w: WorkspaceModel) -> bool {
    match w.active_tile() {
        Some(t) => t.window.pending_sizing_mode is Fullscreen,
        None => false,
    }
}

/// Whether a window added to workspace `w` gets the focus there. By itself it does unless it would
/// take it from one that fills the screen; beside a window, only if that one has it.
pub open spec fn takes_focus(w: WorkspaceModel, activate: ActivateWindow, beside: Option<WindowId>) -> bool {
    activate.decided(
        match beside {
            Some(x) => w.active == Some(x),
            None => !guarded(w),
        },
    )
}

/// The predicate that picks the ids of workspaces that show window `w`.
pub open spec fn id_having(pool: PoolModel, w: WindowId) -> spec_fn(WorkspaceId) -> bool {
    |id: WorkspaceId|
        match pool.get(id) {
            Some(ws) => ws.has_window(w),
            None => false,
        }
}

/// The predicate that picks an activity that shows workspace `id` on output `out`.
pub open spec fn holds_on(out: OutputId, id: WorkspaceId) -> spec_fn(ActivityModel) -> bool {
    |a: ActivityModel|
        match a.view_of(out) {
            Some(v) => v.position_of(id) is Some,
            None => false,
        }
}

/// Whether an empty workspace at `pos` of a view that is not on screen can go without costing the
/// view a bookend.
pub open spec fn spare(v: ViewModel, pos: int, leading: bool) -> bool {
    pos + 1 != v.ids.len() && (leading ==> pos != 0 && v.ids.len() > 3)
}

impl PoolModel {
    /// A new empty workspace for activity `act` added that is not pinned to any output.
    pub open spec fn mint_loose(self, act: ActivityId) -> PoolModel {
        PoolModel {
            items: self.items.push(
                WorkspaceModel {
                    bound: None,
                    ..WorkspaceModel::fresh(self.next_id(), OutputId(0), act)
                },
            ),
            next: self.next + 1,
        }
    }

    /// The view of every workspace held still or let go.
    pub open spec fn lock_all(self, lock: bool) -> PoolModel {
        PoolModel {
            items: Seq::new(
                self.items.len(),
                |i: int| WorkspaceModel { scroll_lock: lock, ..self.items[i] },
            ),
            ..self
        }
    }

    /// Window `w` focused on workspace `id`.
    pub open spec fn activate_window(self, id: WorkspaceId, w: WindowId) -> PoolModel {
        match self.get(id) {
            Some(ws) => self.put(id, ws.activate_window(w)),
            None => self,
        }
    }
}

impl LayoutModel {
    /// The entry at `idx` of the active view of monitor `mon` made active. Unless it was, an
    /// animation towards it starts.
    pub open spec fn focus_on(self, mon: int, idx: int) -> LayoutModel {
        let m = self.monitors[mon];
        match self.active_view(m.output.id) {
            Some(v) => if 0 <= idx < v.ids.len() {
                let s = self.with_view(self.acts.active, m.output.id, v.activate(idx));
                if v.active_position() != idx && idx <= i64::MAX {
                    LayoutModel {
                        monitors: s.monitors.update(
                            mon,
                            Monitor {
                                workspace_switch: Some(
                                    WorkspaceSwitch::Animation { target: idx as i64 },
                                ),
                                ..m
                            },
                        ),
                        ..s
                    }
                } else {
                    s
                }
            } else {
                self
            },
            None => self,
        }
    }

    /// Workspace `id` made monitor `mon`'s own.
    pub open spec fn claim(self, mon: int, id: WorkspaceId) -> LayoutModel {
        LayoutModel {
            pool: self.pool.set_output(id, Some(self.monitors[mon].output.id)),
            ..self
        }
    }

    /// `tile` added to the workspace at `idx` of the active view of monitor `mon`, with the
    /// bookends that takes. `focus` says whether it gets the focus there, `switch` whether the
    /// workspace does.
    pub open spec fn place(self, mon: int, idx: int, tile: Tile, focus: bool, switch: bool) -> LayoutModel {
        let m = self.monitors[mon];
        match self.active_view(m.output.id) {
            Some(v) => if 0 <= idx < v.ids.len() {
                let id = v.ids[idx];
                let s1 = LayoutModel { pool: self.pool.add_tile(id, tile, focus), ..self }.claim(
                    mon,
                    id,
                );
                let s2 = if idx == v.ids.len() - 1 {
                    s1.add_workspace_bottom(mon)
                } else {
                    s1
                };
                let lead = m.empty_workspace_above_first && idx == 0;
                let s3 = if lead {
                    s2.add_workspace_top(mon)
                } else {
                    s2
                };
                if switch {
                    s3.focus_on(
                        mon,
                        if lead {
                            1
                        } else {
                            idx
                        },
                    )
                } else {
                    s3
                }
            } else {
                self
            },
            None => self,
        }
    }

    /// Whether the user drags window `w`.
    pub open spec fn is_dragged(self, w: WindowId) -> bool {
        match self.moving {
            Some(InteractiveMoveState::Moving(d)) => d.tile.window.id == w,
            _ => false,
        }
    }

    /// The predicate that picks the monitors that show window `w`.
    pub open spec fn showing_window(self, w: WindowId) -> spec_fn(Monitor) -> bool {
        |m: Monitor|
            match self.active_view(m.output.id) {
                Some(v) => crate::search::find(v.ids, id_having(self.pool, w)) is Some,
                None => false,
            }
    }

    /// Monitor and place of the workspace that shows window `w` to the active activity.
    pub open spec fn window_place(self, w: WindowId) -> Option<(int, int)> {
        match crate::search::find(self.monitors, self.showing_window(w)) {
            Some(m) => Some(
                (
                    m,
                    crate::search::find(
                        self.active_view(self.monitors[m].output.id).unwrap().ids,
                        id_having(self.pool, w),
                    ).unwrap(),
                ),
            ),
            None => None,
        }
    }

    /// Place of the active workspace of monitor `mon`.
    pub open spec fn active_place(self, mon: int) -> (int, int) {
        (
            mon,
            match self.active_view(self.monitors[mon].output.id) {
                Some(v) => v.active_position(),
                None => 0,
            },
        )
    }

    /// Monitor and place where a window goes, and the window it goes beside.
    pub open spec fn add_place(self, target: AddWindowTarget) -> Option<((int, int), Option<WindowId>)> {
        match target {
            AddWindowTarget::Auto => Some((self.active_place(self.focused), None)),
            AddWindowTarget::Output(out) => match self.monitor_pos(out) {
                Some(m) => Some((self.active_place(m), None)),
                None => None,
            },
            AddWindowTarget::Workspace(id) => match self.monitor_showing(id) {
                Some(m) => Some(
                    (
                        (
                            m,
                            self.active_view(self.monitors[m].output.id).unwrap().position_of(
                                id,
                            ).unwrap(),
                        ),
                        None,
                    ),
                ),
                None => None,
            },
            AddWindowTarget::NextTo(w) => match self.moving {
                Some(InteractiveMoveState::Moving(d)) if d.tile.window.id == w => Some(
                    (
                        self.active_place(
                            match self.monitor_pos(d.output.id) {
                                Some(m) => m,
                                None => self.focused,
                            },
                        ),
                        None,
                    ),
                ),
                _ => match self.window_place(w) {
                    Some(p) => Some((p, Some(w))),
                    None => None,
                },
            },
        }
    }

    /// A parked workspace to put windows on, if there is none yet.
    pub open spec fn ensure_parked(self) -> LayoutModel {
        if self.parked.len() == 0 {
            LayoutModel {
                pool: self.pool.mint_loose(self.acts.active),
                parked: seq![self.pool.next_id()],
                ..self
            }
        } else {
            self
        }
    }

    /// Whether a window can be added there while no output is connected.
    pub open spec fn can_park(self, target: AddWindowTarget) -> bool {
        match target {
            AddWindowTarget::Auto => true,
            AddWindowTarget::Output(_) => false,
            AddWindowTarget::Workspace(id) => self.parked.contains(id),
            AddWindowTarget::NextTo(w) => self.is_dragged(w) || crate::search::find(
                self.parked,
                id_having(self.pool, w),
            ) is Some,
        }
    }

    /// `tile` added while no output is connected.
    pub open spec fn park_window(self, tile: Tile, target: AddWindowTarget, activate: ActivateWindow) -> LayoutModel {
        let loose = self.ensure_parked();
        match target {
            AddWindowTarget::Workspace(id) => self.add_to(id, tile, activate, None),
            AddWindowTarget::NextTo(w) => if self.is_dragged(w) {
                loose.add_to(loose.parked[0], tile, activate, None)
            } else {
                match crate::search::find(self.parked, id_having(self.pool, w)) {
                    Some(i) => self.add_to(self.parked[i], tile, activate, Some(w)),
                    None => self,
                }
            },
            _ => loose.add_to(loose.parked[0], tile, activate, None),
        }
    }

    /// `tile` added to workspace `id`, which becomes the own of the output that shows it, if one
    /// does.
    pub open spec fn add_to(
        self,
        id: WorkspaceId,
        tile: Tile,
        activate: ActivateWindow,
        beside: Option<WindowId>,
    ) -> LayoutModel {
        match self.pool.get(id) {
            Some(w) => LayoutModel {
                pool: match self.holding_output(id) {
                    Some(out) => self.pool.add_tile(
                        id,
                        tile,
                        takes_focus(w, activate, beside),
                    ).set_output(id, Some(out)),
                    None => self.pool.add_tile(id, tile, takes_focus(w, activate, beside)),
                },
                ..self
            },
            None => self,
        }
    }

    /// The monitor that workspace `id`, which the active activity does not show, is on.
    pub open spec fn hidden_monitor(self, id: WorkspaceId) -> Option<int> {
        let tagged = match self.pool.get(id) {
            Some(w) => match w.output_id {
                Some(out) => self.monitor_pos(out),
                None => None,
            },
            None => None,
        };
        match tagged {
            Some(m) => Some(m),
            None => match self.holding_output(id) {
                Some(out) => self.monitor_pos(out),
                None => None,
            },
        }
    }

    /// Whether workspace `target` is named and the active activity does not show it.
    pub open spec fn is_hidden_target(self, target: AddWindowTarget) -> bool {
        match target {
            AddWindowTarget::Workspace(id) => match self.acts.get(self.acts.active) {
                Some(a) => a.output_of(id) is None,
                None => true,
            },
            _ => false,
        }
    }

    /// Whether a window can be added there.
    pub open spec fn can_add(self, target: AddWindowTarget) -> bool {
        if self.monitors.len() == 0 {
            self.can_park(target)
        } else if self.is_hidden_target(target) {
            self.pool.has(target->Workspace_0)
        } else {
            self.add_place(target) is Some
        }
    }

    /// The output that a window added there is on.
    pub open spec fn add_output_of(self, target: AddWindowTarget) -> Option<Output> {
        if self.monitors.len() == 0 {
            None
        } else if self.is_hidden_target(target) {
            match self.hidden_monitor(target->Workspace_0) {
                Some(m) => Some(self.monitors[m].output),
                None => None,
            }
        } else {
            match self.add_place(target) {
                Some(p) => Some(self.monitors[p.0.0].output),
                None => None,
            }
        }
    }

    /// `tile` added.
    pub open spec fn add_window(self, tile: Tile, target: AddWindowTarget, activate: ActivateWindow) -> LayoutModel {
        if self.monitors.len() == 0 {
            self.park_window(tile, target, activate)
        } else if self.is_hidden_target(target) {
            let id = target->Workspace_0;
            match self.hidden_monitor(id) {
                Some(_) => self.add_to(id, tile, activate, None).normalize(),
                None => self,
            }
        } else {
            match self.add_place(target) {
                Some(((mon, idx), beside)) => {
                    let s = self.place_resolved(mon, idx, tile, activate, beside, true);
                    LayoutModel {
                        focused: if activate is Yes {
                            mon
                        } else {
                            s.focused
                        },
                        ..s
                    }.normalize()
                },
                None => self,
            }
        }
    }

    /// `tile` added to the workspace at `idx` of the active view of monitor `mon`; the workspace
    /// gets the focus if the window is meant to and `allow` lets it.
    pub open spec fn place_resolved(
        self,
        mon: int,
        idx: int,
        tile: Tile,
        activate: ActivateWindow,
        beside: Option<WindowId>,
        allow: bool,
    ) -> LayoutModel {
        match self.active_view(self.monitors[mon].output.id) {
            Some(v) => if 0 <= idx < v.ids.len() {
                self.place(
                    mon,
                    idx,
                    tile,
                    match self.pool.get(v.ids[idx]) {
                        Some(w) => takes_focus(w, activate, beside),
                        None => false,
                    },
                    allow && activate is Yes,
                )
            } else {
                self
            },
            None => self,
        }
    }

    /// The drag over: nothing follows the pointer, and no view is held still.
    pub open spec fn release(self) -> LayoutModel {
        LayoutModel {
            moving: None,
            monitors: Seq::new(
                self.monitors.len(),
                |i: int| Monitor { dnd_scroll: false, ..self.monitors[i] },
            ),
            pool: self.pool.lock_all(false),
            ..self
        }
    }

    /// Window `w` taken off the workspace at `idx` of the active view of monitor `mon`, which goes
    /// with it if it is left empty out of sight.
    pub open spec fn take_shown(self, mon: int, idx: int, w: WindowId) -> LayoutModel {
        let m = self.monitors[mon];
        let out = m.output.id;
        let act = self.acts.active;
        let v = self.active_view(out).unwrap();
        let id = v.ids[idx];
        let s1 = LayoutModel { pool: self.pool.remove_window(id, w), ..self };
        let still = m.workspace_switch is None;
        let cull = !s1.pool.busy(id) && idx != v.active_position() && idx != v.ids.len() - 1
            && still && s1.pool.exclusive(id);
        let v1 = if cull {
            v.remove_at(idx)
        } else {
            v
        };
        let p1 = if cull {
            s1.pool.remove(id)
        } else {
            s1.pool
        };
        if still && doubled(p1, v1, m.empty_workspace_above_first) {
            LayoutModel { pool: p1.remove(v1.ids[1]), ..s1 }.with_view(act, out, v1.remove_at(1))
        } else {
            LayoutModel { pool: p1, ..s1 }.with_view(act, out, v1)
        }
    }

    /// Window `w` taken off the parked workspace at `i`, which goes with it if it is left empty.
    pub open spec fn take_parked(self, i: int, w: WindowId) -> LayoutModel {
        let id = self.parked[i];
        let pool = self.pool.remove_window(id, w);
        if pool.busy(id) {
            LayoutModel { pool, ..self }
        } else {
            LayoutModel { pool: pool.remove(id), parked: self.parked.remove(i), ..self }
        }
    }

    /// Window `w` taken off workspace `id`, which no view on screen shows; the workspace goes with
    /// it if it is left empty and its view can spare it.
    pub open spec fn take_hidden(self, id: WorkspaceId, w: WindowId) -> LayoutModel {
        let s = LayoutModel { pool: self.pool.remove_window(id, w), ..self };
        if s.pool.busy(id) || !s.pool.exclusive(id) {
            s
        } else {
            match self.holding_output(id) {
                Some(out) => match crate::search::find(self.acts.list, holds_on(out, id)) {
                    Some(i) => {
                        let v = self.acts.list[i].view_of(out).unwrap();
                        if spare(v, v.position_of(id).unwrap(), self.leading_empty(out)) {
                            s.destroy(id)
                        } else {
                            s
                        }
                    },
                    None => s,
                },
                None => s,
            }
        }
    }

    /// Window `w` taken out.
    pub open spec fn take_window(self, w: WindowId) -> LayoutModel {
        if self.is_dragged(w) {
            self.release()
        } else {
            let s = match self.moving {
                Some(InteractiveMoveState::Starting { window_id }) if window_id == w => self.release(),
                _ => self,
            };
            match s.window_place(w) {
                Some((mon, idx)) => s.take_shown(mon, idx, w),
                None => match crate::search::find(s.parked, id_having(s.pool, w)) {
                    Some(i) => s.take_parked(i, w),
                    None => match s.pool.first(having(w)) {
                        Some(id) => s.take_hidden(id, w),
                        None => s,
                    },
                },
            }
        }
    }

    /// The tile of window `w`: the dragged one, or else the one on the first workspace that shows
    /// it, those on screen before the parked ones and those before the rest.
    pub open spec fn tile_of(self, w: WindowId) -> Option<Tile> {
        match self.moving {
            Some(InteractiveMoveState::Moving(d)) if d.tile.window.id == w => Some(
                Tile { floating: false, ..d.tile },
            ),
            _ => {
                let id = match self.window_place(w) {
                    Some((mon, idx)) => Some(
                        self.active_view(self.monitors[mon].output.id).unwrap().ids[idx],
                    ),
                    None => match crate::search::find(self.parked, id_having(self.pool, w)) {
                        Some(i) => Some(self.parked[i]),
                        None => self.pool.first(having(w)),
                    },
                };
                match id {
                    Some(id) => match self.pool.get(id) {
                        Some(ws) => match ws.window_pos(w) {
                            Some(p) => Some(ws.tiles[p]),
                            None => None,
                        },
                        None => None,
                    },
                    None => None,
                }
            },
        }
    }

    /// Window `w` focused where the active activity shows it. Its workspace gets the focus too,
    /// unless the user is swiping past it.
    pub open spec fn activate_window(self, w: WindowId) -> LayoutModel {
        if self.is_dragged(w) {
            self
        } else {
            match self.window_place(w) {
                Some((mon, idx)) => {
                    let v = self.active_view(self.monitors[mon].output.id).unwrap();
                    let s = LayoutModel {
                        pool: self.pool.activate_window(v.ids[idx], w),
                        focused: mon,
                        ..self
                    };
                    match self.monitors[mon].workspace_switch {
                        Some(WorkspaceSwitch::Gesture { target, between, .. }) if target == idx || (between
                            && target + 1 == idx) => s,
                        _ => s.focus_on(mon, idx),
                    }
                },
                None => self,
            }
        }
    }
}

/// Focusing a workspace keeps the frame.
pub broadcast proof fn lemma_focus_on_leads(s: LayoutModel, mon: int, idx: int)
    requires
        0 <= mon < s.monitors.len(),
    ensures
        s.leads_to(#[trigger] s.focus_on(mon, idx)),
{
    broadcast use crate::reclaim::lemma_with_view_leads;

}

/// Placing a tile keeps the frame.
pub broadcast proof fn lemma_place_leads(
    s: LayoutModel,
    mon: int,
    idx: int,
    tile: Tile,
    focus: bool,
    switch: bool,
)
    requires
        0 <= mon < s.monitors.len(),
    ensures
        s.leads_to(#[trigger] s.place(mon, idx, tile, focus, switch)),
{
    broadcast use {lemma_focus_on_leads, crate::bookends::lemma_mint_into_leads};

    let m = s.monitors[mon];
    if let Some(v) = s.active_view(m.output.id) {
        if 0 <= idx < v.ids.len() {
            let s0 = LayoutModel { pool: s.pool.add_tile(v.ids[idx], tile, focus), ..s };
            assert(s.leads_to(s0));
            let s1 = s0.claim(mon, v.ids[idx]);
            assert(s0.leads_to(s1));
            let s2 = if idx == v.ids.len() - 1 {
                s1.add_workspace_bottom(mon)
            } else {
                s1
            };
            assert(s1.leads_to(s2));
            let s3 = if m.empty_workspace_above_first && idx == 0 {
                s2.add_workspace_top(mon)
            } else {
                s2
            };
            assert(s2.leads_to(s3));
        }
    }
}

/// Holding views still or not moves no window.
pub proof fn lemma_lock_keeps(p: PoolModel, id: WorkspaceId)
    ensures
        p.lock_all(false).pos(id) == p.pos(id),
{
    let q = crate::pool::has_id(id);
    crate::search::lemma_find_from(p.items, q, 0);
    crate::search::lemma_find_from(p.lock_all(false).items, q, 0);
    let l = p.lock_all(false);
    assert(forall|i: int| 0 <= i < p.items.len() ==> q(#[trigger] l.items[i]) == q(p.items[i]));
    match (p.pos(id), l.pos(id)) {
        (Some(x), Some(y)) => {
            if x < y {
                assert(q(l.items[x]));
            } else if y < x {
                assert(q(p.items[y]));
                assert(q(l.items[y]));
            }
        },
        (Some(x), None) => {
            assert(q(l.items[x]));
        },
        (None, Some(y)) => {
            assert(q(l.items[y]));
            assert(q(p.items[y]));
        },
        (None, None) => {},
    }
}

/// Ending a drag that has not begun to move the window leaves it where it is.
pub proof fn lemma_release_keeps_windows(s: LayoutModel, w: WindowId)
    requires
        s.moving matches Some(InteractiveMoveState::Starting { .. }),
    ensures
        s.release().tile_of(w) == s.tile_of(w),
{
    let t = s.release();
    assert forall|id: WorkspaceId| #[trigger] id_having(t.pool, w)(id) == id_having(
        s.pool,
        w,
    )(id) by {
        lemma_lock_keeps(s.pool, id);
        if let Some(i) = s.pool.pos(id) {
            crate::search::lemma_find_from(s.pool.items, crate::pool::has_id(id), 0);
            assert(t.pool.items[i].tiles == s.pool.items[i].tiles);
        }
    }
    assert(id_having(t.pool, w) =~= id_having(s.pool, w));
    assert forall|m: Monitor, n: Monitor| m.output == n.output implies #[trigger] t.showing_window(
        w,
    )(m) == #[trigger] s.showing_window(w)(n) by {}
    crate::search::lemma_find_map(s.monitors, t.monitors, s.showing_window(w), t.showing_window(w));
    crate::search::lemma_find_map(s.pool.items, t.pool.items, having(w), having(w));
    assert forall|id: WorkspaceId| #[trigger] s.pool.get(id) is Some implies t.pool.get(id) is Some
        && t.pool.get(id).unwrap().tiles == s.pool.get(id).unwrap().tiles by {
        lemma_lock_keeps(s.pool, id);
        crate::search::lemma_find_from(s.pool.items, crate::pool::has_id(id), 0);
    }
    assert forall|id: WorkspaceId| #[trigger] s.pool.get(id) is None implies t.pool.get(
        id,
    ) is None by {
        lemma_lock_keeps(s.pool, id);
    }
    let shown = |x: LayoutModel|
        match x.window_place(w) {
            Some((mon, idx)) => Some(
                x.active_view(x.monitors[mon].output.id).unwrap().ids[idx],
            ),
            None => match crate::search::find(x.parked, id_having(x.pool, w)) {
                Some(i) => Some(x.parked[i]),
                None => x.pool.first(having(w)),
            },
        };
    crate::search::lemma_find_from(s.monitors, s.showing_window(w), 0);
    crate::search::lemma_find_from(s.pool.items, having(w), 0);
    assert(shown(s) == shown(t));
    if let Some(id) = shown(s) {
        assert(s.pool.get(id) is Some || s.pool.get(id) is None);
    }
}

/// Bookmarks have no say in where windows are.
pub proof fn lemma_tile_of_ignores_bookmarks(s: LayoutModel, t: LayoutModel, w: WindowId)
    requires
        t == (LayoutModel { bookmarks: t.bookmarks, ..s }),
    ensures
        t.tile_of(w) == s.tile_of(w),
{
    assert(t.showing_window(w) =~= s.showing_window(w));
}

impl Workspace {
    /// Whether a window added here gets the focus.
    pub fn takes_focus(&self, activate: ActivateWindow, beside: Option<WindowId>) -> (b: bool)
        ensures
            b == takes_focus(self@, activate, beside),
    {
        let smart = match beside {
            Some(x) => match self.active {
                Some(a) => a == x,
                None => false,
            },
            None => match self.active_tile() {
                Some(t) => !t.window.pending_sizing_mode.is_fullscreen(),
                None => true,
            },
        };
        activate.decide(smart)
    }
}

impl WorkspacePool {
    /// Adds a new empty workspace that is not pinned to any output and returns its id.
    pub fn mint_loose(&mut self, act: ActivityId) -> (id: WorkspaceId)
        requires
            old(self).next_id < u64::MAX,
        ensures
            id == old(self)@.next_id(),
            final(self)@ == old(self)@.mint_loose(act),
            final(self).next_id == old(self).next_id + 1,
    {
        let id = WorkspaceId(self.next_id);
        self.next_id = self.next_id + 1;
        let mut w = Workspace::new(id, OutputId(0), act);
        w.bound = None;
        self.items.push(w);
        assert(self@.items =~= old(self)@.mint_loose(act).items);
        id
    }

    /// Holds the view of every workspace still, or lets it go.
    pub fn lock_all(&mut self, lock: bool)
        ensures
            final(self)@ == old(self)@.lock_all(lock),
            final(self).next_id == old(self).next_id,
    {
        let ghost start = self@;
        let mut i: usize = 0;
        while i < self.items.len()
            invariant
                i <= self.items@.len(),
                self.items@.len() == start.items.len(),
                self.next_id == old(self).next_id,
                start == old(self)@,
                forall|j: int|
                    0 <= j < i ==> (#[trigger] self.items@[j])@ == start.lock_all(lock).items[j],
                forall|j: int|
                    i <= j < self.items@.len() ==> (#[trigger] self.items@[j])@ == start.items[j],
            decreases self.items@.len() - i,
        {
            self.items[i].scroll_lock = lock;
            i = i + 1;
        }
        assert(self@.items =~= start.lock_all(lock).items);
    }

    /// Focuses window `w` on workspace `id`.
    pub fn activate_window(&mut self, id: WorkspaceId, w: WindowId)
        ensures
            final(self)@ == old(self)@.activate_window(id, w),
            final(self).next_id == old(self).next_id,
    {
        if let Some(p) = self.position(id) {
            let _found = self.items[p].activate_window(w);
            assert(self@.items =~= old(self)@.activate_window(id, w).items);
        }
    }

    /// Position of the first of `ids` that shows window `w`.
    pub fn first_having(&self, ids: &Vec<WorkspaceId>, w: WindowId) -> (pos: Option<usize>)
        ensures
            match pos {
                Some(p) => crate::search::find(ids@, id_having(self@, w)) == Some(p as int) && p
                    < ids@.len(),
                None => crate::search::find(ids@, id_having(self@, w)) is None,
            },
    {
        let ghost q = id_having(self@, w);
        let mut i: usize = 0;
        while i < ids.len()
            invariant
                i <= ids@.len(),
                q == id_having(self@, w),
                crate::search::find(ids@, q) == crate::search::find_from(ids@, q, i as int),
            decreases ids@.len() - i,
        {
            let here = match self.get(ids[i]) {
                Some(ws) => ws.has_window(w),
                None => false,
            };
            if here {
                return Some(i);
            }
            i = i + 1;
        }
        None
    }
}

impl Layout {
    /// Makes the entry at `idx` of the active view of monitor `mon_idx` active. Unless it was, an
    /// animation towards it starts.
    pub(crate) fn activate_workspace(&mut self, mon_idx: usize, idx: usize)
        requires
            mon_idx < old(self)@.monitors.len(),
        ensures
            final(self)@ == old(self)@.focus_on(mon_idx as int, idx as int),
    {
        let out = self.monitors[mon_idx].output.id;
        let act = self.activities.active;
        if let Some(mut v) = self.copy_view(act, out) {
            if idx < v.len() {
                let moved = v.active_position() != idx;
                v.activate(idx);
                self.put_view(act, out, v);
                if moved && idx as u64 <= i64::MAX as u64 {
                    self.monitors[mon_idx].workspace_switch = Some(
                        WorkspaceSwitch::Animation { target: idx as i64 },
                    );
                }
            }
        }
    }

    /// Makes workspace `id` monitor `mon_idx`'s own.
    pub(crate) fn claim(&mut self, mon_idx: usize, id: WorkspaceId)
        requires
            mon_idx < old(self)@.monitors.len(),
        ensures
            final(self)@ == old(self)@.claim(mon_idx as int, id),
    {
        self.workspaces.set_output(id, Some(self.monitors[mon_idx].output.id));
    }

    /// Adds `tile` to the workspace at `idx` of the active view of monitor `mon_idx`, with the
    /// bookends that takes.
    fn place(&mut self, mon_idx: usize, idx: usize, tile: Tile, focus: bool, switch: bool)
        requires
            mon_idx < old(self)@.monitors.len(),
            old(self)@.place(mon_idx as int, idx as int, tile, focus, switch).fits(),
        ensures
            final(self)@ == old(self)@.place(mon_idx as int, idx as int, tile, focus, switch),
    {
        broadcast use {lemma_focus_on_leads, crate::bookends::lemma_mint_into_leads};

        let out = self.monitors[mon_idx].output.id;
        let act = self.activities.active;
        let (id, len): (WorkspaceId, usize) = match self.activities.view_on(act, out) {
            Some(v) => {
                if idx >= v.len() {
                    return;
                }
                (v.id_at(idx), v.len())
            },
            None => {
                return;
            },
        };
        self.workspaces.add_tile(id, tile, focus);
        self.claim(mon_idx, id);
        let lead = self.monitors[mon_idx].empty_workspace_above_first && idx == 0;
        if idx == len - 1 {
            self.add_workspace_bottom_on(mon_idx);
        }
        if lead {
            self.add_workspace_top_on(mon_idx);
        }
        if switch {
            let at: usize = if lead {
                1
            } else {
                idx
            };
            self.activate_workspace(mon_idx, at);
        }
    }

    /// Adds `tile` to the workspace at `idx` of the active view of monitor `mon_idx`; the
    /// workspace gets the focus if the window is meant to and `allow` lets it.
    pub(crate) fn add_resolved_tile_on(
        &mut self,
        mon_idx: usize,
        idx: usize,
        tile: Tile,
        activate: ActivateWindow,
        beside: Option<WindowId>,
        allow: bool,
    )
        requires
            mon_idx < old(self)@.monitors.len(),
            old(self)@.place_resolved(
                mon_idx as int,
                idx as int,
                tile,
                activate,
                beside,
                allow,
            ).fits(),
        ensures
            final(self)@ == old(self)@.place_resolved(
                mon_idx as int,
                idx as int,
                tile,
                activate,
                beside,
                allow,
            ),
    {
        let out = self.monitors[mon_idx].output.id;
        let focus = match self.activities.view_on(self.activities.active, out) {
            Some(v) => if idx < v.len() {
                match self.workspaces.get(v.id_at(idx)) {
                    Some(w) => w.takes_focus(activate, beside),
                    None => false,
                }
            } else {
                return;
            },
            None => {
                return;
            },
        };
        let switch = allow && match activate {
            ActivateWindow::Yes => true,
            _ => false,
        };
        self.place(mon_idx, idx, tile, focus, switch);
    }

    /// Whether the user drags window `w`.
    pub fn is_dragged(&self, w: WindowId) -> (b: bool)
        ensures
            b == self@.is_dragged(w),
    {
        match self.interactive_move {
            Some(InteractiveMoveState::Moving(d)) => d.tile.window.id == w,
            _ => false,
        }
    }

    /// Monitor and place of the workspace that shows window `w` to the active activity.
    pub fn window_place(&self, w: WindowId) -> (p: Option<(usize, usize)>)
        ensures
            match p {
                Some(p) => self@.window_place(w) == Some((p.0 as int, p.1 as int)) && p.0
                    < self@.monitors.len() && self@.active_view(
                    self@.monitors[p.0 as int].output.id,
                ) is Some && p.1 < self@.active_view(
                    self@.monitors[p.0 as int].output.id,
                ).unwrap().ids.len(),
                None => self@.window_place(w) is None,
            },
    {
        let ghost q = self@.showing_window(w);
        let mut i: usize = 0;
        while i < self.monitors.len()
            invariant
                i <= self.monitors@.len(),
                q == self@.showing_window(w),
                crate::search::find(self.monitors@, q) == crate::search::find_from(
                    self.monitors@,
                    q,
                    i as int,
                ),
            decreases self.monitors@.len() - i,
        {
            if let Some(v) = self.activities.view_on(
                self.activities.active,
                self.monitors[i].output.id,
            ) {
                if let Some(p) = self.workspaces.first_having(v.ids(), w) {
                    return Some((i, p));
                }
            }
            i = i + 1;
        }
        None
    }

    /// Place of the active workspace of monitor `mon_idx`.
    pub(crate) fn active_place(&self, mon_idx: usize) -> (p: (usize, usize))
        requires
            mon_idx < self@.monitors.len(),
        ensures
            self@.active_place(mon_idx as int) == (p.0 as int, p.1 as int),
            p.0 == mon_idx,
            p.1 < usize::MAX,
    {
        match self.activities.view_on(self.activities.active, self.monitors[mon_idx].output.id) {
            Some(v) => (mon_idx, v.active_position()),
            None => (mon_idx, 0),
        }
    }

    /// Monitor and place where a window goes, and the window it goes beside.
    fn add_place(&self, target: AddWindowTarget) -> (r: Option<((usize, usize), Option<WindowId>)>)
        requires
            self@.focused < self@.monitors.len(),
        ensures
            match r {
                Some(r) => self@.add_place(target) == Some(
                    ((r.0.0 as int, r.0.1 as int), r.1),
                ) && r.0.0 < self@.monitors.len(),
                None => self@.add_place(target) is None,
            },
    {
        match target {
            AddWindowTarget::Auto => Some((self.active_place(self.active_monitor_idx), None)),
            AddWindowTarget::Output(out) => match self.monitor_idx(out) {
                Some(m) => Some((self.active_place(m), None)),
                None => None,
            },
            AddWindowTarget::Workspace(id) => match self.monitor_showing(id) {
                Some(m) => match self.activities.view_on(
                    self.activities.active,
                    self.monitors[m].output.id,
                ) {
                    Some(v) => match v.position_of(id) {
                        Some(p) => Some(((m, p), None)),
                        None => None,
                    },
                    None => None,
                },
                None => None,
            },
            AddWindowTarget::NextTo(w) => {
                if let Some(InteractiveMoveState::Moving(d)) = self.interactive_move {
                    if d.tile.window.id == w {
                        let m: usize = match self.monitor_idx(d.output.id) {
                            Some(m) => m,
                            None => self.active_monitor_idx,
                        };
                        return Some((self.active_place(m), None));
                    }
                }
                match self.window_place(w) {
                    Some(p) => Some((p, Some(w))),
                    None => None,
                }
            },
        }
    }

    /// Adds `tile` to workspace `id`, which becomes the own of the output that shows it.
    pub(crate) fn add_to(
        &mut self,
        id: WorkspaceId,
        tile: Tile,
        activate: ActivateWindow,
        beside: Option<WindowId>,
    )
        ensures
            final(self)@ == old(self)@.add_to(id, tile, activate, beside),
    {
        let focus = match self.workspaces.get(id) {
            Some(w) => w.takes_focus(activate, beside),
            None => {
                return;
            },
        };
        let home = self.workspace_holding_output(id);
        self.workspaces.add_tile(id, tile, focus);
        if home.is_some() {
            self.workspaces.set_output(id, home);
        }
    }

    /// Sets up a parked workspace to put windows on, if there is none yet.
    pub(crate) fn ensure_parked(&mut self)
        requires
            old(self)@.ensure_parked().fits(),
        ensures
            final(self)@ == old(self)@.ensure_parked(),
            final(self)@.parked.len() > 0,
    {
        if self.disconnected_workspace_ids.len() == 0 {
            let id = self.workspaces.mint_loose(self.activities.active);
            self.disconnected_workspace_ids.push(id);
            assert(self@.parked =~= seq![old(self)@.pool.next_id()]);
        }
    }

    /// Adds `tile` while no output is connected.
    fn park_window(&mut self, tile: Tile, target: AddWindowTarget, activate: ActivateWindow)
        requires
            old(self)@.park_window(tile, target, activate).fits(),
        ensures
            final(self)@ == old(self)@.park_window(tile, target, activate),
    {
        match target {
            AddWindowTarget::Workspace(id) => {
                self.add_to(id, tile, activate, None);
                return;
            },
            AddWindowTarget::NextTo(w) => {
                if !self.is_dragged(w) {
                    if let Some(i) = self.workspaces.first_having(
                        &self.disconnected_workspace_ids,
                        w,
                    ) {
                        let id = self.disconnected_workspace_ids[i];
                        self.add_to(id, tile, activate, Some(w));
                    }
                    return;
                }
            },
            _ => {},
        }
        self.ensure_parked();
        let id = self.disconnected_workspace_ids[0];
        self.add_to(id, tile, activate, None);
    }

    /// The monitor that workspace `id`, which the active activity does not show, is on.
    fn hidden_monitor(&self, id: WorkspaceId) -> (m: Option<usize>)
        ensures
            match m {
                Some(m) => self@.hidden_monitor(id) == Some(m as int) && m < self@.monitors.len(),
                None => self@.hidden_monitor(id) is None,
            },
    {
        let tagged: Option<usize> = match self.workspaces.get(id) {
            Some(w) => match w.output_id {
                Some(out) => self.monitor_idx(out),
                None => None,
            },
            None => None,
        };
        match tagged {
            Some(m) => Some(m),
            None => match self.workspace_holding_output(id) {
                Some(out) => self.monitor_idx(out),
                None => None,
            },
        }
    }

    /// Adds `tile` to workspace `id`, which the active activity does not show. The views on screen
    /// stay as they are. Returns the output; the window is dropped if there is none.
    fn add_window_to_hidden_workspace(
        &mut self,
        id: WorkspaceId,
        tile: Tile,
        activate: ActivateWindow,
    ) -> (o: Option<Output>)
        requires
            old(self)@.hidden_monitor(id) is Some ==> old(self)@.add_to(
                id,
                tile,
                activate,
                None,
            ).normalize().fits(),
        ensures
            match old(self)@.hidden_monitor(id) {
                Some(m) => o == Some(old(self)@.monitors[m].output) && final(self)@ == old(
                    self)@.add_to(id, tile, activate, None).normalize(),
                None => o is None && final(self)@ == old(self)@,
            },
    {
        match self.hidden_monitor(id) {
            Some(m) => {
                let output = self.monitors[m].output;
                self.add_to(id, tile, activate, None);
                let _minted = self.normalize_view_bookends();
                Some(output)
            },
            None => None,
        }
    }

    /// Adds a window, as `tile`, and returns the output it is on, if any is connected.
    pub(crate) fn do_add_window(&mut self, tile: Tile, target: AddWindowTarget, activate: ActivateWindow) -> (o:
        Option<Output>)
        requires
            old(self)@.monitors.len() > 0 ==> old(self)@.focused < old(self)@.monitors.len(),
            old(self)@.can_add(target),
            old(self)@.add_window(tile, target, activate).fits(),
        ensures
            final(self)@ == old(self)@.add_window(tile, target, activate),
            o == old(self)@.add_output_of(target),
    {
        broadcast use crate::bookends::lemma_normalize_leads;

        if self.monitors.len() == 0 {
            self.park_window(tile, target, activate);
            return None;
        }
        if let AddWindowTarget::Workspace(id) = target {
            let shown = match self.activities.get(self.activities.active) {
                Some(a) => a.output_of(id).is_some(),
                None => false,
            };
            if !shown {
                return self.add_window_to_hidden_workspace(id, tile, activate);
            }
        }
        match self.add_place(target) {
            Some(((mon_idx, idx), beside)) => {
                let output = self.monitors[mon_idx].output;
                self.add_resolved_tile_on(mon_idx, idx, tile, activate, beside, true);
                if let ActivateWindow::Yes = activate {
                    self.active_monitor_idx = mon_idx;
                }
                let _minted = self.normalize_view_bookends();
                Some(output)
            },
            None => None,
        }
    }

    /// Ends a drag: nothing follows the pointer, and no view is held still.
    pub(crate) fn release(&mut self)
        ensures
            final(self)@ == old(self)@.release(),
    {
        let ghost start = self@;
        self.interactive_move = None;
        self.workspaces.lock_all(false);
        let mut i: usize = 0;
        while i < self.monitors.len()
            invariant
                i <= self.monitors@.len(),
                self.monitors@.len() == start.monitors.len(),
                forall|j: int|
                    0 <= j < i ==> #[trigger] self.monitors@[j] == start.release().monitors[j],
                forall|j: int|
                    i <= j < self.monitors@.len() ==> #[trigger] self.monitors@[j]
                        == start.monitors[j],
                self@ == (LayoutModel { monitors: self.monitors@, ..start.release() }),
            decreases self.monitors@.len() - i,
        {
            self.monitors[i].dnd_scroll = false;
            i = i + 1;
        }
        assert(self.monitors@ =~= start.release().monitors);
    }

    /// Takes window `w` off the workspace at `idx` of the active view of monitor `mon_idx`.
    fn take_shown(&mut self, mon_idx: usize, idx: usize, w: WindowId) -> (t: Option<Tile>)
        requires
            mon_idx < old(self)@.monitors.len(),
            old(self)@.active_view(old(self)@.monitors[mon_idx as int].output.id) is Some,
            idx < old(self)@.active_view(
                old(self)@.monitors[mon_idx as int].output.id,
            ).unwrap().ids.len(),
        ensures
            final(self)@ == old(self)@.take_shown(mon_idx as int, idx as int, w),
            t == match old(self)@.pool.get(
                old(self)@.active_view(
                    old(self)@.monitors[mon_idx as int].output.id,
                ).unwrap().ids[idx as int],
            ) {
                Some(ws) => match ws.window_pos(w) {
                    Some(p) => Some(ws.tiles[p]),
                    None => None,
                },
                None => None,
            },
    {
        let out = self.monitors[mon_idx].output.id;
        let leading = self.monitors[mon_idx].empty_workspace_above_first;
        let still = self.monitors[mon_idx].workspace_switch.is_none();
        let act = self.activities.active;
        let mut v = match self.copy_view(act, out) {
            Some(v) => v,
            None => {
                return None;
            },
        };
        let id = v.id_at(idx);
        let tile = self.workspaces.remove_window(id, w);
        if !self.workspaces.is_busy(id) && idx != v.active_position() && idx != v.len() - 1
            && still && self.workspaces.workspace_is_safe_to_reclaim(id) {
            let _gone = v.remove_at(idx);
            self.workspaces.remove(id);
        }
        if still && leading && v.len() == 2 {
            let second = v.id_at(1);
            if !self.workspaces.is_busy(v.id_at(0)) && !self.workspaces.is_busy(second)
                && self.workspaces.workspace_is_safe_to_reclaim(second) {
                let _gone = v.remove_at(1);
                self.workspaces.remove(second);
            }
        }
        self.put_view(act, out, v);
        tile
    }

    /// Takes window `w` off workspace `id`, which no view on screen shows.
    fn take_hidden(&mut self, id: WorkspaceId, w: WindowId) -> (t: Option<Tile>)
        ensures
            final(self)@ == old(self)@.take_hidden(id, w),
            t == match old(self)@.pool.get(id) {
                Some(ws) => match ws.window_pos(w) {
                    Some(p) => Some(ws.tiles[p]),
                    None => None,
                },
                None => None,
            },
    {
        let out = self.workspace_holding_output(id);
        let tile = self.workspaces.remove_window(id, w);
        if self.workspaces.is_busy(id) || !self.workspaces.workspace_is_safe_to_reclaim(id) {
            return tile;
        }
        if let Some(o) = out {
            let leading = self.leads_with_empty(o);
            if self.can_spare(o, id, leading) {
                self.destroy(id);
            }
        }
        tile
    }

    /// Whether the first activity that shows workspace `id` on output `out` can spare it.
    fn can_spare(&self, out: OutputId, id: WorkspaceId, leading: bool) -> (b: bool)
        ensures
            b == match crate::search::find(self@.acts.list, holds_on(out, id)) {
                Some(i) => {
                    let v = self@.acts.list[i].view_of(out).unwrap();
                    spare(v, v.position_of(id).unwrap(), leading)
                },
                None => false,
            },
    {
        let ghost q = holds_on(out, id);
        let mut i: usize = 0;
        while i < self.activities.list.len()
            invariant
                i <= self.activities.list@.len(),
                q == holds_on(out, id),
                crate::search::find(self@.acts.list, q) == crate::search::find_from(
                    self@.acts.list,
                    q,
                    i as int,
                ),
            decreases self.activities.list@.len() - i,
        {
            assert(self@.acts.list[i as int] == self.activities.list@[i as int]@);
            if let Some(v) = self.activities.list[i].view_on(out) {
                if let Some(pos) = v.position_of(id) {
                    let n: usize = v.len();
                    return pos != n - 1 && (!leading || (pos != 0 && n > 3));
                }
            }
            i = i + 1;
        }
        false
    }

    /// Takes window `w` out of the layout and returns its tile. A workspace that is left empty is
    /// destroyed where its view can spare it. Bookmarks stay.
    pub(crate) fn remove_window_inner(&mut self, w: WindowId) -> (t: Option<Tile>)
        ensures
            final(self)@ == old(self)@.take_window(w),
            t == old(self)@.tile_of(w),
    {
        let ghost start = self@;
        match self.interactive_move {
            Some(InteractiveMoveState::Moving(d)) => {
                if d.tile.window.id == w {
                    self.release();
                    return Some(
                        Tile { window: d.tile.window, column: d.tile.column, floating: false },
                    );
                }
            },
            Some(InteractiveMoveState::Starting { window_id }) => {
                if window_id == w {
                    self.release();
                    proof {
                        lemma_release_keeps_windows(start, w);
                    }
                }
            },
            None => {},
        }
        if let Some((mon_idx, idx)) = self.window_place(w) {
            return self.take_shown(mon_idx, idx, w);
        }
        if let Some(i) = self.workspaces.first_having(&self.disconnected_workspace_ids, w) {
            let id = self.disconnected_workspace_ids[i];
            let tile = self.workspaces.remove_window(id, w);
            if !self.workspaces.is_busy(id) {
                self.workspaces.remove(id);
                let _gone = self.disconnected_workspace_ids.remove(i);
            }
            return tile;
        }
        if let Some(id) = self.window_ws_and_activity_hint(w) {
            return self.take_hidden(id, w);
        }
        None
    }

    /// Takes window `w`, which closes, out of the layout and returns its tile.
    pub(crate) fn do_remove_window(&mut self, w: WindowId) -> (t: Option<Tile>)
        ensures
            final(self)@ == (LayoutModel {
                bookmarks: old(self)@.bookmarks.prune(w),
                ..old(self)@
            }).take_window(w),
            t == old(self)@.tile_of(w),
    {
        let ghost start = self@;
        self.bookmarks.prune_window(w);
        proof {
            lemma_tile_of_ignores_bookmarks(start, self@, w);
        }
        self.remove_window_inner(w)
    }

    /// Focuses window `w` where the active activity shows it. Its workspace gets the focus too,
    /// unless the user is swiping past it.
    pub(crate) fn do_activate_window(&mut self, w: WindowId)
        ensures
            final(self)@ == old(self)@.activate_window(w),
    {
        if self.is_dragged(w) {
            return;
        }
        if let Some((mon_idx, idx)) = self.window_place(w) {
            let id = match self.activities.view_on(
                self.activities.active,
                self.monitors[mon_idx].output.id,
            ) {
                Some(v) => v.id_at(idx),
                None => {
                    return;
                },
            };
            self.workspaces.activate_window(id, w);
            self.active_monitor_idx = mon_idx;
            let passing = match self.monitors[mon_idx].workspace_switch {
                Some(WorkspaceSwitch::Gesture { target, between, is_touchpad: _ }) => (0 <= target
                    && target as u64 == idx as u64) || (between && ((0 <= target && target as u64 + 1
                    == idx as u64) || (target == -1 && idx == 0))),
                _ => false,
            };
            if !passing {
                self.activate_workspace(mon_idx, idx);
            }
        }
    }
}

} // verus!
