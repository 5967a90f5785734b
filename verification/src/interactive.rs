//! Dragging windows, drag-and-drop, and the overview.

use vstd::prelude::*;

use crate::ids::{OutputId, WindowId, WorkspaceId};
use crate::layout::{
    DndData, DndHold, DndHoldTarget, InteractiveMoveData, InteractiveMoveState, Layout, LayoutModel,
    OverviewProgress,
};
use crate::lookup::having;
use crate::monitor::Monitor;
use crate::moves::{alone, insert_target, resolve_insert_target, BookendResolution};
use crate::windows::{id_having, ActivateWindow};
use crate::workspace::{Output, SizingMode, Tile, Window};

verus! {

/// How long a drag has to rest over a target to activate it, in milliseconds.
pub const HOLD_DELAY: u64 = 750;

/// The workspace that the pointer is over.
#[derive(Clone, Copy, Debug, PartialEq, Eq, Structural)]
pub enum InsertWorkspace {
    /// That one.
    Existing(WorkspaceId),
    /// The gap above the one at that place.
    NewAt(usize),
}

/// Where a dragged window would drop.
#[derive(Clone, Copy, Debug, PartialEq, Eq, Structural)]
pub struct DropPlace {
    /// The workspace.
    pub workspace: InsertWorkspace,
    /// The column that it would join, by its first window; none if it would make its own.
    pub column: Option<WindowId>,
}

/// What a motion of the pointer means for a window that is dragged.
#[derive(Clone, Copy, Debug, PartialEq, Eq, Structural)]
pub struct DragMotion {
    /// The output under the pointer.
    pub output: Output,
    /// Whether the pointer has gone far enough to pull the window out of its place.
    pub far: bool,
    /// Whether the window floats once it is neither fullscreen nor maximized.
    pub floats: bool,
    /// Whether the workspace that the window is on has settings of its own.
    pub configured: bool,
    /// The workspace under the pointer.
    pub over: Option<WorkspaceId>,
}

/// What a frame brings.
#[derive(Debug)]
pub struct Tick {
    /// The time, in milliseconds.
    pub now: u64,
    /// Whether a drag to an edge scrolled something.
    pub scrolled: bool,
    /// What the pointer is over.
    pub target: Option<DndHoldTarget>,
    /// Whether the overview has finished opening or closing.
    pub opened: bool,
    /// Of each monitor, whether its activity switch has arrived.
    pub slid: Vec<bool>,
    /// Of each monitor, whether its workspace switch has arrived.
    pub arrived: Vec<bool>,
}

/// Tile `t` in its normal size, floating or not.
pub open spec fn freed(t: Tile, floats: bool) -> Tile {
    Tile {
        window: Window { pending_sizing_mode: SizingMode::Normal, ..t.window },
        floating: floats,
        ..t
    }
}

impl LayoutModel {
    /// A drag makes the strips scroll at the edges, or no longer.
    pub open spec fn edge_scroll(self, on: bool) -> LayoutModel {
        LayoutModel {
            monitors: Seq::new(
                self.monitors.len(),
                |i: int| Monitor { dnd_scroll: on, ..self.monitors[i] },
            ),
            ..self
        }
    }

    /// The views of all workspaces held still, or let go.
    pub open spec fn hold_views(self, on: bool) -> LayoutModel {
        LayoutModel { pool: self.pool.lock_all(on), ..self }
    }

    /// The focus on output `out`, if it is connected.
    pub open spec fn focus_output(self, out: OutputId) -> LayoutModel {
        match self.monitor_pos(out) {
            Some(m) => LayoutModel { focused: m, ..self },
            None => self,
        }
    }

    /// Whether a drag of window `w` can begin on output `out`.
    pub open spec fn can_begin_move(self, w: WindowId, out: OutputId) -> bool {
        self.moving is None && match self.window_place(w) {
            Some((mon, _)) => self.monitors[mon].output.id == out,
            None => false,
        }
    }

    /// The tile of window `w` where it is shown.
    pub open spec fn shown_tile(self, w: WindowId) -> Option<Tile> {
        match self.window_place(w) {
            Some((mon, idx)) => match self.workspace_at(mon, idx) {
                Some(ws) => ws.tile(Some(w)),
                None => None,
            },
            None => None,
        }
    }

    /// Window `w` grabbed.
    pub open spec fn begin_move(self, w: WindowId) -> LayoutModel {
        let s = LayoutModel {
            moving: Some(InteractiveMoveState::Starting { window_id: w }),
            ..self
        }.edge_scroll(true);
        match self.shown_tile(w) {
            Some(t) => if t.floating {
                s
            } else {
                s.hold_views(true)
            },
            None => s,
        }
    }

    /// The first workspace that has window `w`.
    pub open spec fn home_of(self, w: WindowId) -> Option<WorkspaceId> {
        self.pool.first(having(w))
    }

    /// Whether window `w` floats on the first workspace that has it.
    pub open spec fn floats_at_home(self, w: WindowId) -> bool {
        match self.home_of(w) {
            Some(id) => match self.pool.get(id) {
                Some(ws) => match ws.tile(Some(w)) {
                    Some(t) => t.floating,
                    None => false,
                },
                None => false,
            },
            None => false,
        }
    }

    /// Window `w` pulled out of its place, in its normal size.
    pub open spec fn pull_out(self, w: WindowId, m: DragMotion) -> LayoutModel {
        let t = LayoutModel { moving: None, ..self }.tile_of(w).unwrap();
        let s1 = LayoutModel { moving: None, ..self }.take_window(w);
        let s2 = if m.floats {
            s1.hold_views(false)
        } else {
            s1
        };
        LayoutModel {
            moving: Some(
                InteractiveMoveState::Moving(
                    InteractiveMoveData {
                        tile: freed(t, m.floats),
                        output: m.output,
                        workspace_config: if m.configured {
                            self.home_of(w)
                        } else {
                            None
                        },
                    },
                ),
            ),
            ..s2
        }
    }

    /// The dragged window `d` after the motion `m`: settings of a workspace that it has left are
    /// forgotten, and the focus follows it to another output.
    pub open spec fn drag_on(self, d: InteractiveMoveData, m: DragMotion) -> LayoutModel {
        let over = if self.monitor_pos(m.output.id) is Some {
            m.over
        } else {
            None
        };
        let s = if m.output != d.output {
            self.focus_output(m.output.id)
        } else {
            self
        };
        LayoutModel {
            moving: Some(
                InteractiveMoveState::Moving(
                    InteractiveMoveData {
                        tile: d.tile,
                        output: m.output,
                        workspace_config: if d.workspace_config == over {
                            over
                        } else {
                            None
                        },
                    },
                ),
            ),
            ..s
        }
    }

    /// Whether a motion is about the window that is dragged or grabbed.
    pub open spec fn is_grabbed(self, w: WindowId) -> bool {
        match self.moving {
            Some(InteractiveMoveState::Starting { window_id }) => window_id == w,
            Some(InteractiveMoveState::Moving(d)) => d.tile.window.id == w,
            None => false,
        }
    }

    /// The layout after the motion `m` of window `w`.
    pub open spec fn update_move(self, w: WindowId, m: DragMotion) -> LayoutModel {
        match self.moving {
            Some(InteractiveMoveState::Starting { window_id }) => if window_id != w || (
            !self.floats_at_home(w) && !m.far) {
                self
            } else {
                self.pull_out(w, m)
            },
            Some(InteractiveMoveState::Moving(d)) => if d.tile.window.id != w {
                self
            } else {
                self.drag_on(d, m)
            },
            None => self,
        }
    }

    /// The monitor on which the dragged window `d` drops: the one under the pointer, if it is
    /// connected, else the focused one.
    pub open spec fn drop_monitor(self, d: InteractiveMoveData) -> int {
        match self.monitor_pos(d.output.id) {
            Some(m) => m,
            None => self.focused,
        }
    }

    /// The workspace on which the dragged window `d` would join a column, dropped at `p`; none where
    /// it makes its own.
    pub open spec fn drop_target(self, d: InteractiveMoveData, p: DropPlace) -> Option<WorkspaceId> {
        let mon = self.drop_monitor(d);
        if d.tile.floating || self.monitors.len() == 0 {
            None
        } else if self.monitor_pos(d.output.id) is None {
            Some(self.active_view(self.monitors[mon].output.id).unwrap().ids[0])
        } else {
            match p.workspace {
                InsertWorkspace::Existing(id) => Some(id),
                InsertWorkspace::NewAt(_) => None,
            }
        }
    }

    /// Whether the dragged window `d` can drop at `p`: the workspace is there, and so is the column
    /// that the window is to join.
    pub open spec fn can_drop(self, d: InteractiveMoveData, p: DropPlace) -> bool {
        let mon = self.drop_monitor(d);
        self.monitors.len() == 0 || (0 <= mon < self.monitors.len() && self.view_len(mon) > 0 && (
        self.monitor_pos(d.output.id) is Some ==> match p.workspace {
            InsertWorkspace::Existing(id) => self.active_view(
                self.monitors[mon].output.id,
            ).unwrap().position_of(id) is Some,
            InsertWorkspace::NewAt(_) => true,
        }) && match (self.drop_target(d, p), p.column) {
            (Some(id), Some(leader)) => self.pool.get(id) is Some && self.pool.get(
                id,
            ).unwrap().has_column(leader),
            _ => true,
        })
    }

    /// `tile` put on the workspace at `idx` of monitor `mon`, in the column `column` or in its own.
    pub open spec fn land(self, mon: int, idx: int, tile: Tile, column: Option<WindowId>) -> LayoutModel {
        let allow = !self.overview_open;
        match column {
            Some(leader) => match self.active_view(self.monitors[mon].output.id) {
                Some(v) => {
                    let s = LayoutModel {
                        pool: self.pool.add_tile(
                            v.ids[idx],
                            Tile { column: leader, ..tile },
                            true,
                        ),
                        ..self
                    }.claim(mon, v.ids[idx]);
                    if allow {
                        s.focus_on(mon, idx)
                    } else {
                        s
                    }
                },
                None => self,
            },
            None => self.place_resolved(mon, idx, alone(tile), ActivateWindow::Yes, None, allow),
        }
    }

    /// The dragged window `d` dropped at `p`. A window that floats joins no column; one that drops
    /// on an output that is gone goes to the first workspace of the focused one.
    pub open spec fn drop_at(self, d: InteractiveMoveData, p: DropPlace) -> LayoutModel {
        let mon = self.drop_monitor(d);
        let n = self.view_len(mon);
        let column = if d.tile.floating {
            None
        } else {
            p.column
        };
        if self.monitors.len() == 0 {
            let s = self.ensure_parked();
            s.add_to(s.parked[0], alone(d.tile), ActivateWindow::Yes, None)
        } else if self.monitor_pos(d.output.id) is None {
            self.land(mon, 0, d.tile, column)
        } else {
            match p.workspace {
                InsertWorkspace::Existing(id) => self.land(
                    mon,
                    self.active_view(self.monitors[mon].output.id).unwrap().position_of(id).unwrap(),
                    d.tile,
                    column,
                ),
                InsertWorkspace::NewAt(at) => match insert_target(
                    self.monitors[mon].empty_workspace_above_first,
                    at as int,
                    n,
                ) {
                    BookendResolution::ReuseTop => self.land(mon, 0, d.tile, None),
                    BookendResolution::ReuseTrailing => self.land(mon, n - 1, d.tile, None),
                    BookendResolution::InsertAt(i) => self.add_workspace_at(mon, i as int).land(
                        mon,
                        i as int,
                        d.tile,
                        None,
                    ),
                },
            }
        }
    }

    /// The drag of window `d` over, and the window nowhere yet.
    pub open spec fn let_go(self, d: InteractiveMoveData) -> LayoutModel {
        let s = LayoutModel { moving: None, ..self }.edge_scroll(false);
        if d.tile.floating {
            s
        } else {
            s.hold_views(false)
        }
    }

    /// The drag of window `w` ended at `p`.
    pub open spec fn end_move(self, w: WindowId, p: DropPlace) -> LayoutModel {
        match self.moving {
            Some(InteractiveMoveState::Starting { window_id }) => if window_id == w {
                self.release()
            } else {
                self
            },
            Some(InteractiveMoveState::Moving(d)) => if d.tile.window.id == w {
                self.let_go(d).drop_at(d, p)
            } else {
                self
            },
            None => self,
        }
    }

    /// A drag-and-drop over output `output`.
    pub open spec fn dnd_over(self, output: Output) -> LayoutModel {
        let s = LayoutModel { dnd: Some(DndData { output, hold: None }), ..self };
        if self.dnd is None {
            s.edge_scroll(true).hold_views(true)
        } else {
            s
        }
    }

    /// The drag-and-drop ended.
    pub open spec fn dnd_done(self) -> LayoutModel {
        if self.dnd is None {
            self
        } else {
            LayoutModel { dnd: None, ..self }.edge_scroll(false).hold_views(false)
        }
    }

    /// The overview open or not, and shown like `progress`.
    pub open spec fn show_overview(self, open: bool, progress: OverviewProgress) -> LayoutModel {
        LayoutModel {
            overview_open: open,
            progress: Some(progress),
            monitors: Seq::new(
                self.monitors.len(),
                |i: int| Monitor { overview_open: open, ..self.monitors[i] },
            ),
            ..self
        }
    }

    /// The overview opening or closing, with no activity switch under way.
    pub open spec fn set_overview(self, open: bool) -> LayoutModel {
        self.disarm().show_overview(open, OverviewProgress::Animation)
    }

    /// The animation of the overview ended, if there is one.
    pub open spec fn settle_overview(self) -> LayoutModel {
        LayoutModel {
            progress: if self.progress == Some(OverviewProgress::Animation) {
                if self.overview_open {
                    Some(OverviewProgress::Open)
                } else {
                    None
                }
            } else {
                self.progress
            },
            ..self
        }
    }

    /// Where a drag rests after a look at `target`.
    pub open spec fn held(hold: Option<DndHold>, target: DndHoldTarget, now: u64) -> DndHold {
        match hold {
            Some(h) if h.target == target => h,
            _ => DndHold { start_time: now, target },
        }
    }

    /// Place of the workspace that `target` is on, in the active view of monitor `mon`.
    pub open spec fn hold_place(self, mon: int, target: DndHoldTarget) -> Option<int> {
        match self.active_view(self.monitors[mon].output.id) {
            Some(v) => match target {
                DndHoldTarget::Window(w) => crate::search::find(v.ids, id_having(self.pool, w)),
                DndHoldTarget::Workspace(id) => v.position_of(id),
            },
            None => None,
        }
    }

    /// What the drag rests over on monitor `mon` activated: its workspace, and its window if it is
    /// one. The focus goes there, and the overview closes.
    pub open spec fn activate_held(self, mon: int, target: DndHoldTarget) -> LayoutModel {
        match self.hold_place(mon, target) {
            Some(idx) => {
                let m = self.monitors[mon];
                let s1 = match target {
                    DndHoldTarget::Window(w) => LayoutModel {
                        pool: self.pool.activate_window(
                            self.active_view(m.output.id).unwrap().ids[idx],
                            w,
                        ),
                        ..self
                    },
                    DndHoldTarget::Workspace(_) => self,
                };
                let s2 = LayoutModel {
                    monitors: s1.monitors.update(mon, Monitor { dnd_scroll: false, ..m }),
                    ..s1
                }.focus_on(mon, idx);
                let s3 = LayoutModel { focused: mon, ..s2 };
                if s3.overview_open {
                    s3.set_overview(false)
                } else {
                    s3
                }
            },
            None => self,
        }
    }

    /// The output on which a drag may scroll.
    pub open spec fn drag_output(self) -> Option<OutputId> {
        match self.dnd {
            Some(d) => Some(d.output.id),
            None => match self.moving {
                Some(InteractiveMoveState::Moving(d)) => Some(d.output.id),
                _ => None,
            },
        }
    }

    /// The drag-and-drop after a frame: it rests, or the time it has rested starts over, or what
    /// it rests over is activated.
    pub open spec fn advance_hold(self, scrolled: bool, target: Option<DndHoldTarget>, now: u64) -> LayoutModel {
        match (self.drag_output(), self.dnd) {
            (Some(out), Some(d)) => match self.monitor_pos(out) {
                Some(mon) => {
                    let idle = LayoutModel {
                        dnd: Some(DndData { output: d.output, hold: None }),
                        ..self
                    };
                    if scrolled || target is None {
                        idle
                    } else {
                        let h = LayoutModel::held(d.hold, target.unwrap(), now);
                        if now >= h.start_time && now - h.start_time >= HOLD_DELAY {
                            idle.activate_held(mon, target.unwrap())
                        } else {
                            LayoutModel {
                                dnd: Some(DndData { output: d.output, hold: Some(h) }),
                                ..self
                            }
                        }
                    }
                },
                None => self,
            },
            _ => self,
        }
    }

    /// The activity switch of monitor `mon` ended.
    pub open spec fn end_slide(self, mon: int) -> LayoutModel {
        LayoutModel {
            monitors: self.monitors.update(
                mon,
                Monitor { activity_switch: None, ..self.monitors[mon] },
            ),
            ..self
        }
    }

    /// The activity and workspace switches of the first `n` monitors that have arrived ended.
    pub open spec fn end_arrived(self, slid: Seq<bool>, arrived: Seq<bool>, n: int) -> LayoutModel
        decreases n,
    {
        if n <= 0 {
            self
        } else {
            let s = self.end_arrived(slid, arrived, n - 1);
            let t = if slid[n - 1] {
                s.end_slide(n - 1)
            } else {
                s
            };
            if arrived[n - 1] {
                t.settle(n - 1).clean_up(n - 1)
            } else {
                t
            }
        }
    }

    /// The layout after a frame.
    pub open spec fn advance(
        self,
        scrolled: bool,
        target: Option<DndHoldTarget>,
        now: u64,
        opened: bool,
        slid: Seq<bool>,
        arrived: Seq<bool>,
    ) -> LayoutModel {
        let s = self.advance_hold(scrolled, target, now);
        let t = if opened {
            s.settle_overview()
        } else {
            s
        };
        t.end_arrived(slid, arrived, t.monitors.len() as int)
    }
}

/// Where a drag rests after a look at `target`.
fn next_hold(hold: Option<DndHold>, target: DndHoldTarget, now: u64) -> (h: DndHold)
    ensures
        h == LayoutModel::held(hold, target, now),
{
    match hold {
        Some(h) => if h.target == target {
            h
        } else {
            DndHold { start_time: now, target }
        },
        None => DndHold { start_time: now, target },
    }
}

impl Layout {
    /// Makes a drag scroll the strips at the edges, or no longer.
    fn edge_scroll(&mut self, on: bool)
        ensures
            final(self)@ == old(self)@.edge_scroll(on),
    {
        let ghost start = self@;
        let mut i: usize = 0;
        while i < self.monitors.len()
            invariant
                i <= self.monitors@.len(),
                self.monitors@.len() == start.monitors.len(),
                forall|j: int|
                    0 <= j < i ==> #[trigger] self.monitors@[j] == start.edge_scroll(on).monitors[j],
                forall|j: int|
                    i <= j < self.monitors@.len() ==> #[trigger] self.monitors@[j]
                        == start.monitors[j],
                self@ == (LayoutModel { monitors: self.monitors@, ..start }),
            decreases self.monitors@.len() - i,
        {
            self.monitors[i].dnd_scroll = on;
            i = i + 1;
        }
        assert(self.monitors@ =~= start.edge_scroll(on).monitors);
    }

    /// Gives output `output` the focus, if it is connected.
    pub fn focus_output(&mut self, output: OutputId)
        ensures
            final(self)@ == old(self)@.focus_output(output),
            old(self)@.whole() ==> final(self)@.whole(),
            old(self)@.whole() && old(self)@.orderly() ==> final(self)@.orderly(),
    {
        proof {
            if self@.whole() {
                crate::resting::law_focusing_an_output_keeps_whole(self@, output);
            }
        }
        if let Some(m) = self.monitor_idx(output) {
            self.active_monitor_idx = m;
        }
    }

    /// Grabs window `window_id` on output `output`. Says whether it could be.
    pub fn interactive_move_begin(&mut self, window_id: WindowId, output: OutputId) -> (b: bool)
        ensures
            b == old(self)@.can_begin_move(window_id, output),
            final(self)@ == if b {
                old(self)@.begin_move(window_id)
            } else {
                old(self)@
            },
            old(self)@.whole() ==> final(self)@.whole(),
            old(self)@.whole() && old(self)@.orderly() ==> final(self)@.orderly(),
    {
        proof {
            if self@.whole() {
                crate::resting::law_grabbing_keeps_whole(self@, window_id);
            }
        }
        if self.interactive_move.is_some() {
            return false;
        }
        let (mon, idx) = match self.window_place(window_id) {
            Some(p) => p,
            None => {
                return false;
            },
        };
        if self.monitors[mon].output.id != output {
            return false;
        }
        let floating = match self.workspace_at(mon, idx) {
            Some(ws) => match ws.tile(Some(window_id)) {
                Some(t) => t.floating,
                None => true,
            },
            None => true,
        };
        self.interactive_move = Some(InteractiveMoveState::Starting { window_id });
        self.edge_scroll(true);
        if !floating {
            self.workspaces.lock_all(true);
        }
        true
    }

    /// The first workspace that has window `w`.
    pub fn home_of(&self, w: WindowId) -> (id: Option<WorkspaceId>)
        ensures
            id == self@.home_of(w),
    {
        self.window_ws_and_activity_hint(w)
    }

    /// Whether window `w` floats on the first workspace that has it.
    pub(crate) fn floats_at_home(&self, w: WindowId) -> (b: bool)
        ensures
            b == self@.floats_at_home(w),
    {
        match self.home_of(w) {
            Some(id) => match self.workspaces.get(id) {
                Some(ws) => match ws.tile(Some(w)) {
                    Some(t) => t.floating,
                    None => false,
                },
                None => false,
            },
            None => false,
        }
    }

    /// Takes note of the motion `motion` of window `window`. Says whether it is the one that is
    /// dragged or grabbed.
    pub(crate) fn do_interactive_move_update(&mut self, window: WindowId, motion: DragMotion) -> (b: bool)
        requires
            old(self)@.moving == Some(
                (InteractiveMoveState::Starting { window_id: window }),
            ) ==> (LayoutModel { moving: None, ..old(self)@ }).tile_of(window) is Some,
        ensures
            b == old(self)@.is_grabbed(window),
            final(self)@ == old(self)@.update_move(window, motion),
    {
        match self.interactive_move {
            None => false,
            Some(InteractiveMoveState::Starting { window_id }) => {
                if window_id != window {
                    return false;
                }
                if !self.floats_at_home(window) && !motion.far {
                    return true;
                }
                let home = self.home_of(window);
                self.interactive_move = None;
                if let Some(t) = self.remove_window_inner(window) {
                    if motion.floats {
                        self.workspaces.lock_all(false);
                    }
                    let tile = Tile {
                        window: Window {
                            id: t.window.id,
                            parent: t.window.parent,
                            urgent: t.window.urgent,
                            pending_sizing_mode: SizingMode::Normal,
                            windowed_fullscreen: t.window.windowed_fullscreen,
                        },
                        column: t.column,
                        floating: motion.floats,
                    };
                    let workspace_config = if motion.configured {
                        home
                    } else {
                        None
                    };
                    self.interactive_move = Some(
                        InteractiveMoveState::Moving(
                            InteractiveMoveData { tile, output: motion.output, workspace_config },
                        ),
                    );
                }
                true
            },
            Some(InteractiveMoveState::Moving(d)) => {
                if d.tile.window.id != window {
                    return false;
                }
                let over = if self.monitor_idx(motion.output.id).is_some() {
                    motion.over
                } else {
                    None
                };
                let kept = match (d.workspace_config, over) {
                    (Some(a), Some(b)) => if a == b {
                        Some(a)
                    } else {
                        None
                    },
                    _ => None,
                };
                if motion.output != d.output {
                    self.focus_output(motion.output.id);
                }
                self.interactive_move = Some(
                    InteractiveMoveState::Moving(
                        InteractiveMoveData {
                            tile: d.tile,
                            output: motion.output,
                            workspace_config: kept,
                        },
                    ),
                );
                true
            },
        }
    }

    /// Puts `tile` on the workspace at `idx` of monitor `mon`, in the column `column` or in its
    /// own.
    fn land(&mut self, mon: usize, idx: usize, tile: Tile, column: Option<WindowId>)
        requires
            mon < old(self)@.monitors.len(),
            idx < old(self)@.view_len(mon as int),
            old(self)@.land(mon as int, idx as int, tile, column).fits(),
        ensures
            final(self)@ == old(self)@.land(mon as int, idx as int, tile, column),
    {
        let allow = !self.overview_open;
        match column {
            Some(leader) => {
                let id = match self.activities.view_on(
                    self.activities.active,
                    self.monitors[mon].output.id,
                ) {
                    Some(v) => v.id_at(idx),
                    None => {
                        return;
                    },
                };
                let t = Tile { window: tile.window, column: leader, floating: tile.floating };
                self.workspaces.add_tile(id, t, true);
                self.claim(mon, id);
                if allow {
                    self.activate_workspace(mon, idx);
                }
            },
            None => {
                let t = Tile {
                    window: tile.window,
                    column: tile.window.id,
                    floating: tile.floating,
                };
                self.add_resolved_tile_on(mon, idx, t, ActivateWindow::Yes, None, allow);
            },
        }
    }

    /// Drops the dragged window `d` at `place`.
    fn drop_at(&mut self, d: InteractiveMoveData, place: DropPlace)
        requires
            old(self)@.can_drop(d, place),
            old(self)@.drop_at(d, place).fits(),
        ensures
            final(self)@ == old(self)@.drop_at(d, place),
    {
        if self.monitors.len() == 0 {
            let tile = Tile {
                window: d.tile.window,
                column: d.tile.window.id,
                floating: d.tile.floating,
            };
            self.ensure_parked();
            let id = self.disconnected_workspace_ids[0];
            self.add_to(id, tile, ActivateWindow::Yes, None);
            return;
        }
        let column = if d.tile.floating {
            None
        } else {
            place.column
        };
        let mon: usize = match self.monitor_idx(d.output.id) {
            Some(m) => m,
            None => {
                let mon: usize = self.active_monitor_idx;
                self.land(mon, 0, d.tile, column);
                return;
            },
        };
        let n: usize = self.view_len(mon);
        match place.workspace {
            InsertWorkspace::Existing(id) => {
                let out = self.monitors[mon].output.id;
                let at: Option<usize> = match self.activities.view_on(self.activities.active, out) {
                    Some(v) => v.position_of(id),
                    None => None,
                };
                if let Some(idx) = at {
                    self.land(mon, idx, d.tile, column);
                }
            },
            InsertWorkspace::NewAt(at) => {
                let leading = self.monitors[mon].empty_workspace_above_first;
                match resolve_insert_target(leading, at, n) {
                    BookendResolution::ReuseTop => {
                        self.land(mon, 0, d.tile, None);
                    },
                    BookendResolution::ReuseTrailing => {
                        self.land(mon, n - 1, d.tile, None);
                    },
                    BookendResolution::InsertAt(i) => {
                        let ghost start = self@;
                        let ghost s1 = start.add_workspace_at(mon as int, i as int);
                        proof {
                            crate::transfer::lemma_view_after_mint(
                                start,
                                mon as int,
                                start.acts.active,
                                i as int,
                            );
                            crate::bookends::lemma_mint_into_leads(
                                start,
                                mon as int,
                                start.acts.active,
                                i as int,
                            );
                            crate::moves::lemma_place_resolved_leads(
                                s1,
                                mon as int,
                                i as int,
                                alone(d.tile),
                                ActivateWindow::Yes,
                                None,
                                !s1.overview_open,
                            );
                        }
                        self.add_workspace_at_on(mon, i);
                        self.land(mon, i, d.tile, None);
                    },
                }
            },
        }
    }

    /// Ends the drag of window `window` at `place`. A window that was only grabbed stays where it
    /// is.
    pub(crate) fn do_interactive_move_end(&mut self, window: WindowId, place: DropPlace)
        requires
            match old(self)@.moving {
                Some(InteractiveMoveState::Moving(d)) => d.tile.window.id == window ==> old(
                    self)@.let_go(d).can_drop(d, place) && old(self)@.let_go(d).drop_at(
                    d,
                    place,
                ).fits(),
                _ => true,
            },
        ensures
            final(self)@ == old(self)@.end_move(window, place),
    {
        match self.interactive_move {
            None => {},
            Some(InteractiveMoveState::Starting { window_id }) => {
                if window_id == window {
                    self.release();
                }
            },
            Some(InteractiveMoveState::Moving(d)) => {
                if d.tile.window.id == window {
                    self.interactive_move = None;
                    self.edge_scroll(false);
                    if !d.tile.floating {
                        self.workspaces.lock_all(false);
                    }
                    self.drop_at(d, place);
                }
            },
        }
    }

    /// Whether a window is dragged over output `output`.
    pub fn interactive_move_is_moving_above_output(&self, output: &Output) -> (b: bool)
        ensures
            b == match self@.moving {
                Some(InteractiveMoveState::Moving(d)) => d.output == *output,
                _ => false,
            },
    {
        match self.interactive_move {
            Some(InteractiveMoveState::Moving(d)) => d.output == *output,
            _ => false,
        }
    }

    /// Takes note of a drag-and-drop over output `output`.
    pub fn dnd_update(&mut self, output: Output)
        ensures
            final(self)@ == old(self)@.dnd_over(output),
            old(self)@.whole() ==> final(self)@.whole(),
            old(self)@.whole() && old(self)@.orderly() ==> final(self)@.orderly(),
    {
        proof {
            if self@.whole() {
                crate::resting::law_drag_and_drop_keeps_whole(self@, output);
            }
        }
        let begin = self.dnd.is_none();
        self.dnd = Some(DndData { output, hold: None });
        if begin {
            self.edge_scroll(true);
            self.workspaces.lock_all(true);
        }
    }

    /// Ends the drag-and-drop.
    pub fn dnd_end(&mut self)
        ensures
            final(self)@ == old(self)@.dnd_done(),
            old(self)@.whole() ==> final(self)@.whole(),
            old(self)@.whole() && old(self)@.orderly() ==> final(self)@.orderly(),
    {
        proof {
            if self@.whole() {
                crate::resting::law_drag_and_drop_keeps_whole(
                    self@,
                    Output { id: OutputId(0), connector: OutputId(0) },
                );
            }
        }
        if self.dnd.is_none() {
            return;
        }
        self.dnd = None;
        self.edge_scroll(false);
        self.workspaces.lock_all(false);
    }

    /// Opens the overview or closes it, and ends activity switches that are under way.
    fn set_overview(&mut self, open: bool)
        ensures
            final(self)@ == old(self)@.set_overview(open),
    {
        self.snap_all_activity_switches();
        self.show_overview(open, OverviewProgress::Animation);
    }

    /// Opens the overview if it is closed, and closes it if it is open.
    pub fn toggle_overview(&mut self)
        ensures
            final(self)@ == old(self)@.set_overview(!old(self)@.overview_open),
            old(self)@.whole() ==> final(self)@.whole(),
            old(self)@.whole() && old(self)@.orderly() ==> final(self)@.orderly(),
    {
        proof {
            if self@.whole() {
                crate::resting::law_overview_keeps_whole(
                    self@,
                    !self@.overview_open,
                    OverviewProgress::Animation,
                );
            }
        }
        let open = !self.overview_open;
        self.set_overview(open);
    }

    /// Opens the overview. Says whether it was closed.
    pub fn open_overview(&mut self) -> (b: bool)
        ensures
            b == !old(self)@.overview_open,
            final(self)@ == if b {
                old(self)@.set_overview(true)
            } else {
                old(self)@
            },
            old(self)@.whole() ==> final(self)@.whole(),
            old(self)@.whole() && old(self)@.orderly() ==> final(self)@.orderly(),
    {
        proof {
            if self@.whole() {
                crate::resting::law_overview_keeps_whole(self@, true, OverviewProgress::Animation);
            }
        }
        if self.overview_open {
            return false;
        }
        self.toggle_overview();
        true
    }

    /// Closes the overview. Says whether it was open.
    pub fn close_overview(&mut self) -> (b: bool)
        ensures
            b == old(self)@.overview_open,
            final(self)@ == if b {
                old(self)@.set_overview(false)
            } else {
                old(self)@
            },
            old(self)@.whole() ==> final(self)@.whole(),
            old(self)@.whole() && old(self)@.orderly() ==> final(self)@.orderly(),
    {
        proof {
            if self@.whole() {
                crate::resting::law_overview_keeps_whole(self@, false, OverviewProgress::Animation);
            }
        }
        if !self.overview_open {
            return false;
        }
        self.toggle_overview();
        true
    }

    /// Activates the workspace at `idx` of the focused monitor, and opens the overview or closes
    /// it.
    pub(crate) fn do_toggle_overview_to_workspace(&mut self, idx: usize)
        requires
            old(self)@.monitors.len() > 0 ==> old(self)@.focused < old(self)@.monitors.len() && idx
                < old(self)@.view_len(old(self)@.focused),
        ensures
            final(self)@ == (if old(self)@.monitors.len() > 0 {
                old(self)@.focus_on(old(self)@.focused, idx as int)
            } else {
                old(self)@
            }).set_overview(!old(self)@.overview_open),
    {
        if self.monitors.len() > 0 {
            let mon: usize = self.active_monitor_idx;
            self.activate_workspace(mon, idx);
        }
        self.toggle_overview();
    }

    /// Opens the overview for a gesture.
    pub fn overview_gesture_begin(&mut self)
        ensures
            final(self)@ == old(self)@.disarm().show_overview(true, OverviewProgress::Gesture),
            old(self)@.whole() ==> final(self)@.whole(),
            old(self)@.whole() && old(self)@.orderly() ==> final(self)@.orderly(),
    {
        proof {
            if self@.whole() {
                crate::resting::law_overview_keeps_whole(self@, true, OverviewProgress::Gesture);
            }
        }
        self.snap_all_activity_switches();
        self.show_overview(true, OverviewProgress::Gesture);
    }

    /// Ends a gesture that left the overview open or closed. Says whether there was one.
    pub fn overview_gesture_end(&mut self, open: bool) -> (b: bool)
        ensures
            b == (old(self)@.progress == Some(OverviewProgress::Gesture)),
            final(self)@ == if b {
                old(self)@.show_overview(open, OverviewProgress::Animation)
            } else {
                old(self)@
            },
            old(self)@.whole() ==> final(self)@.whole(),
            old(self)@.whole() && old(self)@.orderly() && (open ==> old(self)@.overview_open)
                ==> final(self)@.orderly(),
    {
        proof {
            if self@.whole() {
                crate::resting::law_overview_keeps_whole(self@, open, OverviewProgress::Animation);
            }
        }
        match self.overview_progress {
            Some(OverviewProgress::Gesture) => {
                self.show_overview(open, OverviewProgress::Animation);
                true
            },
            _ => false,
        }
    }

    /// Shows the overview open or not, like `progress`.
    fn show_overview(&mut self, open: bool, progress: OverviewProgress)
        ensures
            final(self)@ == old(self)@.show_overview(open, progress),
    {
        let ghost start = self@;
        self.overview_open = open;
        self.overview_progress = Some(progress);
        let ghost goal = start.show_overview(open, progress);
        let mut i: usize = 0;
        while i < self.monitors.len()
            invariant
                i <= self.monitors@.len(),
                self.monitors@.len() == start.monitors.len(),
                goal == start.show_overview(open, progress),
                forall|j: int| 0 <= j < i ==> #[trigger] self.monitors@[j] == goal.monitors[j],
                forall|j: int|
                    i <= j < self.monitors@.len() ==> #[trigger] self.monitors@[j]
                        == start.monitors[j],
                self@ == (LayoutModel {
                    monitors: self.monitors@,
                    overview_open: open,
                    progress: Some(progress),
                    ..start
                }),
            decreases self.monitors@.len() - i,
        {
            self.monitors[i].overview_open = open;
            i = i + 1;
        }
        assert(self.monitors@ =~= goal.monitors);
    }

    /// Place of the workspace that `target` is on, in the active view of monitor `mon`.
    fn hold_place(&self, mon: usize, target: DndHoldTarget) -> (p: Option<usize>)
        requires
            mon < self@.monitors.len(),
        ensures
            match p {
                Some(p) => self@.hold_place(mon as int, target) == Some(p as int) && p
                    < self@.view_len(mon as int),
                None => self@.hold_place(mon as int, target) is None,
            },
    {
        match self.activities.view_on(self.activities.active, self.monitors[mon].output.id) {
            Some(v) => match target {
                DndHoldTarget::Window(w) => self.workspaces.first_having(v.ids(), w),
                DndHoldTarget::Workspace(id) => v.position_of(id),
            },
            None => None,
        }
    }

    /// Activates what the drag rests over on monitor `mon`.
    fn activate_held(&mut self, mon: usize, target: DndHoldTarget)
        requires
            mon < old(self)@.monitors.len(),
        ensures
            final(self)@ == old(self)@.activate_held(mon as int, target),
    {
        if let Some(idx) = self.hold_place(mon, target) {
            if let DndHoldTarget::Window(w) = target {
                let out = self.monitors[mon].output.id;
                if let Some(v) = self.activities.view_on(self.activities.active, out) {
                    let id = v.id_at(idx);
                    self.workspaces.activate_window(id, w);
                }
            }
            self.monitors[mon].dnd_scroll = false;
            self.activate_workspace(mon, idx);
            self.active_monitor_idx = mon;
            if self.overview_open {
                self.set_overview(false);
            }
        }
    }

    /// Moves the drag-and-drop on by a frame.
    fn advance_hold(&mut self, scrolled: bool, target: Option<DndHoldTarget>, now: u64)
        ensures
            final(self)@ == old(self)@.advance_hold(scrolled, target, now),
    {
        let d = match self.dnd {
            Some(d) => d,
            None => {
                return;
            },
        };
        let mon: usize = match self.monitor_idx(d.output.id) {
            Some(m) => m,
            None => {
                return;
            },
        };
        self.dnd = Some(DndData { output: d.output, hold: None });
        if scrolled {
            return;
        }
        if let Some(t) = target {
            let h = next_hold(d.hold, t, now);
            if now >= h.start_time && now - h.start_time >= HOLD_DELAY {
                self.activate_held(mon, t);
            } else {
                self.dnd = Some(DndData { output: d.output, hold: Some(h) });
            }
        }
    }

    /// Moves everything on by a frame: a drag that has rested long enough activates what it rests
    /// over, the overview has opened or closed, and switches that have arrived end.
    pub(crate) fn do_advance_animations(&mut self, tick: &Tick)
        requires
            tick.slid@.len() == old(self)@.monitors.len(),
            tick.arrived@.len() == old(self)@.monitors.len(),
        ensures
            final(self)@ == old(self)@.advance(
                tick.scrolled,
                tick.target,
                tick.now,
                tick.opened,
                tick.slid@,
                tick.arrived@,
            ),
    {
        self.advance_hold(tick.scrolled, tick.target, tick.now);
        if tick.opened {
            if let Some(OverviewProgress::Animation) = self.overview_progress {
                self.overview_progress = if self.overview_open {
                    Some(OverviewProgress::Open)
                } else {
                    None
                };
            }
        }
        let ghost s = self@;
        proof {
            lemma_advance_hold_keeps(old(self)@, tick.scrolled, tick.target, tick.now);
        }
        let mut i: usize = 0;
        while i < tick.arrived.len()
            invariant
                i <= tick.arrived@.len(),
                tick.slid@.len() == s.monitors.len(),
                tick.arrived@.len() == s.monitors.len(),
                self@ == s.end_arrived(tick.slid@, tick.arrived@, i as int),
                self@.monitors.len() == s.monitors.len(),
            decreases tick.arrived@.len() - i,
        {
            if tick.slid[i] {
                self.monitors[i].activity_switch = None;
            }
            if tick.arrived[i] {
                proof {
                    crate::reclaim::lemma_clean_up_leads(self@.settle(i as int), i as int);
                }
                self.monitors[i].workspace_switch = None;
                self.clean_up_workspaces_on(i);
            }
            i = i + 1;
        }
    }
}

/// A frame leaves the monitors in place.
pub proof fn lemma_advance_hold_keeps(
    s: LayoutModel,
    scrolled: bool,
    target: Option<DndHoldTarget>,
    now: u64,
)
    ensures
        s.advance_hold(scrolled, target, now).monitors.len() == s.monitors.len(),
{
    if let Some(d) = s.dnd {
        if let Some(mon) = s.monitor_pos(d.output.id) {
            crate::search::lemma_find_from(s.monitors, crate::layout::on_output(d.output.id), 0);
        }
    }
}

} // verus!
