//! Moving windows and columns between workspaces.

use vstd::prelude::*;

use crate::ids::{OutputId, WindowId, WorkspaceId};
use crate::layout::{InteractiveMoveState, Layout, LayoutModel};
use crate::pool::{PoolModel, WorkspacePool};
use crate::windows::ActivateWindow;
use crate::workspace::{in_column, not_in_column, Tile, Workspace, WorkspaceModel};

verus! {

/// Where a new workspace goes, or which empty one stands in for it.
#[derive(Clone, Copy, Debug, PartialEq, Eq, Structural)]
pub enum BookendResolution {
    /// The empty one at the top.
    ReuseTop,
    /// The empty one at the bottom.
    ReuseTrailing,
    /// A new one there.
    InsertAt(usize),
}

/// What became of a window that was to move to a workspace of any activity.
#[derive(Clone, Copy, Debug, PartialEq, Eq, Structural)]
pub enum MoveWindowToPoolOutcome {
    /// The active activity shows the workspace; the window has not moved.
    DelegateToActiveView,
    /// The window moved to a workspace that the active activity does not show.
    MovedDormant {
        /// The workspace.
        ws_id: WorkspaceId,
    },
    /// There was no window to move.
    NothingToMove,
}

/// Why a window could not be moved to a workspace.
#[derive(Clone, Copy, Debug, PartialEq, Eq, Structural)]
pub enum MoveWindowToPoolError {
    /// There is no such workspace, or no connected output has it.
    TargetUnreachable,
}

/// Where a new workspace goes in a view of `len`: the top one and the bottom one are empty already
/// and stand in for it.
pub open spec fn insert_target(leading: bool, idx: int, len: int) -> BookendResolution {
    if leading && idx == 0 {
        BookendResolution::ReuseTop
    } else if len - 1 <= idx {
        BookendResolution::ReuseTrailing
    } else {
        BookendResolution::InsertAt(idx as usize)
    }
}

/// Where a new workspace goes in a view of `view_len`.
pub fn resolve_insert_target(leading: bool, insert_idx: usize, view_len: usize) -> (r:
    BookendResolution)
    requires
        view_len > 0,
    ensures
        r == insert_target(leading, insert_idx as int, view_len as int),
{
    if leading && insert_idx == 0 {
        BookendResolution::ReuseTop
    } else if view_len - 1 <= insert_idx {
        BookendResolution::ReuseTrailing
    } else {
        BookendResolution::InsertAt(insert_idx)
    }
}

/// Tile `t` as a column of its own.
pub open spec fn alone(t: Tile) -> Tile {
    Tile { column: t.window.id, ..t }
}

impl WorkspaceModel {
    /// The tile of window `which`, or the focused one.
    pub open spec fn tile(self, which: Option<WindowId>) -> Option<Tile> {
        match which {
            Some(w) => match self.window_pos(w) {
                Some(p) => Some(self.tiles[p]),
                None => None,
            },
            None => self.active_tile(),
        }
    }

    /// The focused column, unless the focused window floats.
    pub open spec fn active_column(self) -> Option<Seq<Tile>> {
        match self.active_tile() {
            Some(t) => if t.floating {
                None
            } else {
                Some(self.tiles.filter(in_column(t.column)))
            },
            None => None,
        }
    }

    /// Whether the focused window floats.
    pub open spec fn floating_is_active(self) -> bool {
        match self.active_tile() {
            Some(t) => t.floating,
            None => false,
        }
    }

    /// The focused column taken out.
    pub open spec fn take_active_column(self) -> WorkspaceModel {
        match self.active_tile() {
            Some(t) => {
                let rest = self.tiles.filter(not_in_column(t.column));
                WorkspaceModel {
                    tiles: rest,
                    active: if rest.len() == 0 {
                        None
                    } else {
                        Some(rest.last().window.id)
                    },
                    ..self
                }
            },
            None => self,
        }
    }

    /// The tiles `column` put in, of which `head` has the focus.
    pub open spec fn add_column(self, column: Seq<Tile>, head: Option<WindowId>, activate: bool) -> WorkspaceModel {
        WorkspaceModel {
            tiles: self.tiles + column,
            active: if activate || self.active is None {
                head
            } else {
                self.active
            },
            ..self
        }
    }
}

impl PoolModel {
    /// The focused column taken off workspace `id`.
    pub open spec fn take_active_column(self, id: WorkspaceId) -> PoolModel {
        match self.get(id) {
            Some(w) => self.put(id, w.take_active_column()),
            None => self,
        }
    }

    /// The tiles `column` put on workspace `id`.
    pub open spec fn add_column(
        self,
        id: WorkspaceId,
        column: Seq<Tile>,
        head: Option<WindowId>,
        activate: bool,
    ) -> PoolModel {
        match self.get(id) {
            Some(w) => self.put(id, w.add_column(column, head, activate)),
            None => self,
        }
    }
}

impl LayoutModel {
    /// The workspace at `idx` of the active view of monitor `mon`.
    pub open spec fn workspace_at(self, mon: int, idx: int) -> Option<WorkspaceModel> {
        match self.active_view(self.monitors[mon].output.id) {
            Some(v) => if 0 <= idx < v.ids.len() {
                self.pool.get(v.ids[idx])
            } else {
                None
            },
            None => None,
        }
    }

    /// Length of the active view of monitor `mon`.
    pub open spec fn view_len(self, mon: int) -> int {
        match self.active_view(self.monitors[mon].output.id) {
            Some(v) => v.ids.len() as int,
            None => 0,
        }
    }

    /// The focused window of monitor `mon`.
    pub open spec fn active_window_on(self, mon: int) -> Option<WindowId> {
        match self.workspace_at(mon, self.active_place(mon).1) {
            Some(w) => match w.active_tile() {
                Some(t) => Some(t.window.id),
                None => None,
            },
            None => None,
        }
    }

    /// The tile `which` taken off the workspace at `from` of monitor `mon`, and put on the one at
    /// `to` of monitor `mon2` as a column of its own.
    pub open spec fn carry(
        self,
        mon: int,
        from: int,
        which: Option<WindowId>,
        mon2: int,
        to: int,
        activate: ActivateWindow,
    ) -> LayoutModel {
        match self.workspace_at(mon, from) {
            Some(w) => match w.tile(which) {
                Some(t) => LayoutModel {
                    pool: self.pool.remove_window(w.id, t.window.id),
                    ..self
                }.place_resolved(mon2, to, alone(t), activate, None, true),
                None => self,
            },
            None => self,
        }
    }

    /// The focused window of monitor `mon` moved to a new workspace at `idx`, or to the empty one
    /// that stands in for it.
    pub open spec fn carry_new(self, mon: int, idx: int, activate: ActivateWindow) -> LayoutModel {
        let n = self.view_len(mon);
        let leading = self.monitors[mon].empty_workspace_above_first;
        match self.workspace_at(mon, self.active_place(mon).1) {
            Some(w) => match w.active_tile() {
                Some(t) => {
                    let s = LayoutModel {
                        pool: self.pool.remove_window(w.id, t.window.id),
                        ..self
                    };
                    match insert_target(leading, idx, n) {
                        BookendResolution::ReuseTop => s.place_resolved(
                            mon,
                            0,
                            alone(t),
                            activate,
                            None,
                            true,
                        ),
                        BookendResolution::ReuseTrailing => s.place_resolved(
                            mon,
                            n - 1,
                            alone(t),
                            activate,
                            None,
                            true,
                        ),
                        BookendResolution::InsertAt(i) => s.add_workspace_at(
                            mon,
                            i as int,
                        ).place_resolved(mon, i as int, alone(t), activate, None, true),
                    }
                },
                None => self,
            },
            None => self,
        }
    }

    /// A new workspace at `idx` of monitor `mon`, or the empty one that stands in for it, focused.
    pub open spec fn open_workspace(self, mon: int, idx: int) -> LayoutModel {
        let n = self.view_len(mon);
        if n == 0 {
            self
        } else {
            match insert_target(self.monitors[mon].empty_workspace_above_first, idx, n) {
                BookendResolution::ReuseTop => self.focus_on(mon, 0),
                BookendResolution::ReuseTrailing => self.focus_on(mon, n - 1),
                BookendResolution::InsertAt(i) => self.add_workspace_at(mon, i as int).focus_on(
                    mon,
                    i as int,
                ),
            }
        }
    }

    /// Stray empty workspaces of monitor `mon` destroyed, unless a switch is under way there.
    pub open spec fn tidy(self, mon: int) -> LayoutModel {
        if self.monitors[mon].workspace_switch is None {
            self.clean_up(mon)
        } else {
            self
        }
    }

    /// Where a command about window `window` finds it: on the focused workspace if no window is
    /// named. A dragged window is nowhere.
    pub open spec fn command_place(self, window: Option<WindowId>) -> Option<(int, int)> {
        if self.moving is Some && self.moving.unwrap() is Moving && (window is None
            || self.is_dragged(window.unwrap())) {
            None
        } else if self.monitors.len() == 0 {
            None
        } else {
            match window {
                Some(w) => self.window_place(w),
                None => Some(self.active_place(self.focused)),
            }
        }
    }

    /// The window `window` of the workspace at `from` of monitor `mon` moved to the one at `idx`.
    pub open spec fn shift_window(
        self,
        mon: int,
        from: int,
        window: Option<WindowId>,
        idx: int,
        activate: ActivateWindow,
    ) -> LayoutModel {
        let n = self.view_len(mon);
        let to = if idx < n {
            idx
        } else {
            n - 1
        };
        let focus = activate.decided(window is None || self.active_window_on(mon) == window);
        if to == from || self.workspace_at(mon, from) is None || self.workspace_at(
            mon,
            from,
        ).unwrap().tile(window) is None {
            self
        } else {
            self.carry(
                mon,
                from,
                window,
                mon,
                to,
                if focus {
                    ActivateWindow::Yes
                } else {
                    ActivateWindow::No
                },
            ).tidy(mon)
        }
    }

    /// A window moved to the workspace at `idx` of its monitor.
    pub open spec fn move_to_workspace(
        self,
        window: Option<WindowId>,
        idx: int,
        activate: ActivateWindow,
    ) -> LayoutModel {
        match self.command_place(window) {
            Some((mon, from)) => self.shift_window(mon, from, window, idx, activate),
            None => self,
        }
    }

    /// A window moved to the workspace at `idx` of monitor `mon2`, or to the active one there.
    pub open spec fn move_to_output(
        self,
        window: Option<WindowId>,
        mon2: int,
        idx: Option<int>,
        activate: ActivateWindow,
    ) -> LayoutModel {
        match self.command_place(window) {
            Some((mon, from)) => {
                let to = match idx {
                    Some(i) => i,
                    None => self.active_place(mon2).1,
                };
                let focus = activate.decided(
                    window is None || (mon == self.focused && self.active_window_on(mon)
                        == window),
                );
                if (mon == mon2 && from == to) || self.view_len(mon2) <= to || self.workspace_at(
                    mon,
                    from,
                ) is None || self.workspace_at(mon, from).unwrap().tile(window) is None {
                    self
                } else {
                    let s = self.carry(
                        mon,
                        from,
                        window,
                        mon2,
                        to,
                        if focus {
                            ActivateWindow::Yes
                        } else {
                            ActivateWindow::No
                        },
                    );
                    LayoutModel {
                        focused: if focus {
                            mon2
                        } else {
                            s.focused
                        },
                        ..s
                    }.tidy(mon)
                }
            },
            None => self,
        }
    }

    /// The focused column of the workspace at `from` of monitor `mon` put on the one at `to` of
    /// monitor `mon2`.
    pub open spec fn carry_column(self, mon: int, from: int, mon2: int, to: int, activate: bool) -> LayoutModel {
        match self.workspace_at(mon, from) {
            Some(w) => match w.active_column() {
                Some(column) => if 0 <= to < self.view_len(mon2) {
                    LayoutModel { pool: self.pool.take_active_column(w.id), ..self }.put_column(
                        mon2,
                        to,
                        column,
                        w.active,
                        activate,
                    )
                } else {
                    self
                },
                None => self,
            },
            None => self,
        }
    }

    /// The tiles `column`, of which `head` has the focus, put on the workspace at `idx` of monitor
    /// `mon`.
    pub open spec fn put_column(
        self,
        mon: int,
        idx: int,
        column: Seq<Tile>,
        head: Option<WindowId>,
        activate: bool,
    ) -> LayoutModel {
        match self.active_view(self.monitors[mon].output.id) {
            Some(v) => if 0 <= idx < v.ids.len() {
                let s = LayoutModel {
                    pool: self.pool.add_column(v.ids[idx], column, head, activate),
                    ..self
                }.claim(mon, v.ids[idx]);
                if activate {
                    s.focus_on(mon, idx)
                } else {
                    s
                }
            } else {
                self
            },
            None => self,
        }
    }

    /// The same, with the focus on that monitor if `activate`, and with the bookends that takes.
    pub open spec fn add_column(
        self,
        mon: int,
        idx: int,
        column: Seq<Tile>,
        head: Option<WindowId>,
        activate: bool,
    ) -> LayoutModel {
        let s = self.put_column(mon, idx, column, head, activate);
        LayoutModel {
            focused: if activate {
                mon
            } else {
                s.focused
            },
            ..s
        }.normalize()
    }

    /// The focused column of monitor `mon` moved to the workspace at `to`; a window that floats
    /// moves alone.
    pub open spec fn shift_column(self, mon: int, to: int, activate: bool, smart: ActivateWindow) -> LayoutModel {
        let from = self.active_place(mon).1;
        match self.workspace_at(mon, from) {
            Some(w) => if to == from {
                self
            } else if w.floating_is_active() {
                self.carry(mon, from, None, mon, to, smart)
            } else {
                self.carry_column(mon, from, mon, to, activate)
            },
            None => self,
        }
    }

    /// The focused column moved to the workspace at `idx` of its monitor.
    pub open spec fn move_column_to_workspace(self, idx: int, activate: bool) -> LayoutModel {
        let mon = self.focused;
        let from = self.active_place(mon).1;
        let n = self.view_len(mon);
        let to = if idx < n {
            idx
        } else {
            n - 1
        };
        match self.workspace_at(mon, from) {
            Some(w) => if to == from {
                self.normalize()
            } else if w.floating_is_active() {
                self.shift_window(
                    mon,
                    from,
                    None,
                    idx,
                    if activate {
                        ActivateWindow::Smart
                    } else {
                        ActivateWindow::No
                    },
                ).normalize()
            } else {
                self.carry_column(mon, from, mon, to, activate).normalize()
            },
            None => self,
        }
    }

    /// The focused column moved to the workspace at `idx` of monitor `mon2`, or to the active one
    /// there.
    pub open spec fn move_column_to_output(self, mon2: int, idx: Option<int>, activate: bool) -> LayoutModel {
        let mon = self.focused;
        let from = self.active_place(mon).1;
        let n = self.view_len(mon2);
        let want = match idx {
            Some(i) => i,
            None => self.active_place(mon2).1,
        };
        let to = if want < n {
            want
        } else {
            n - 1
        };
        match self.workspace_at(mon, from) {
            Some(w) => if w.floating_is_active() {
                self.move_to_output(None, mon2, None, ActivateWindow::Smart)
            } else if w.active_column() is None {
                self
            } else {
                let s = self.carry_column(mon, from, mon2, to, activate);
                LayoutModel {
                    focused: if activate {
                        mon2
                    } else {
                        s.focused
                    },
                    ..s
                }.normalize()
            },
            None => self,
        }
    }

    /// Whether a window can be moved to workspace `id` of any activity, and what comes of it.
    pub open spec fn pool_move(self, window: Option<WindowId>, raw: u64) -> Result<
        MoveWindowToPoolOutcome,
        MoveWindowToPoolError,
    > {
        let id = WorkspaceId(raw);
        if !self.pool.has(id) {
            Err(MoveWindowToPoolError::TargetUnreachable)
        } else if self.monitor_showing(id) is Some {
            Ok(MoveWindowToPoolOutcome::DelegateToActiveView)
        } else if self.routed_monitor(id) is None {
            Err(MoveWindowToPoolError::TargetUnreachable)
        } else {
            match self.pool_source(window) {
                Some((mon, from)) => if self.workspace_at(mon, from) is Some && self.workspace_at(
                    mon,
                    from,
                ).unwrap().tile(window) is Some {
                    Ok(MoveWindowToPoolOutcome::MovedDormant { ws_id: id })
                } else {
                    Ok(MoveWindowToPoolOutcome::NothingToMove)
                },
                None => Ok(MoveWindowToPoolOutcome::NothingToMove),
            }
        }
    }

    /// The connected monitor that workspace `id` is routed to.
    pub open spec fn routed_monitor(self, id: WorkspaceId) -> Option<int> {
        match self.pool.get(id) {
            Some(w) => match w.output_id {
                Some(out) => self.monitor_pos(out),
                None => None,
            },
            None => None,
        }
    }

    /// Monitor and place of the workspace that such a window comes from.
    pub open spec fn pool_source(self, window: Option<WindowId>) -> Option<(int, int)> {
        match window {
            Some(w) => self.window_place(w),
            None => if 0 <= self.focused < self.monitors.len() {
                Some(self.active_place(self.focused))
            } else {
                None
            },
        }
    }

    /// A window moved to workspace `id`, which the active activity does not show.
    pub open spec fn move_to_pool(self, window: Option<WindowId>, id: WorkspaceId, activate: ActivateWindow) -> LayoutModel {
        let (mon, from) = self.pool_source(window).unwrap();
        let w = self.workspace_at(mon, from).unwrap();
        let t = w.tile(window).unwrap();
        LayoutModel { pool: self.pool.remove_window(w.id, t.window.id), ..self }.add_to(
            id,
            alone(t),
            if activate is No {
                ActivateWindow::No
            } else {
                ActivateWindow::Yes
            },
            None,
        ).normalize().tidy(mon)
    }
}

/// Placing a window keeps the frame.
pub broadcast proof fn lemma_place_resolved_leads(
    s: LayoutModel,
    mon: int,
    idx: int,
    tile: Tile,
    activate: ActivateWindow,
    beside: Option<WindowId>,
    allow: bool,
)
    requires
        0 <= mon < s.monitors.len(),
    ensures
        s.leads_to(#[trigger] s.place_resolved(mon, idx, tile, activate, beside, allow)),
{
    broadcast use crate::windows::lemma_place_leads;

}

/// Tidying keeps the frame.
pub broadcast proof fn lemma_tidy_leads(s: LayoutModel, mon: int)
    ensures
        s.leads_to(#[trigger] s.tidy(mon)),
{
    broadcast use crate::reclaim::lemma_clean_up_leads;

}

/// Carrying a window keeps the frame.
pub broadcast proof fn lemma_carry_leads(
    s: LayoutModel,
    mon: int,
    from: int,
    which: Option<WindowId>,
    mon2: int,
    to: int,
    activate: ActivateWindow,
)
    requires
        0 <= mon2 < s.monitors.len(),
    ensures
        s.leads_to(#[trigger] s.carry(mon, from, which, mon2, to, activate)),
{
    broadcast use lemma_place_resolved_leads;

    if let Some(w) = s.workspace_at(mon, from) {
        if let Some(t) = w.tile(which) {
            let s1 = LayoutModel { pool: s.pool.remove_window(w.id, t.window.id), ..s };
            assert(s.leads_to(s1));
        }
    }
}

impl Workspace {
    /// The tile of window `which`, or the focused one.
    pub fn tile(&self, which: Option<WindowId>) -> (t: Option<Tile>)
        ensures
            t == self@.tile(which),
    {
        match which {
            Some(w) => match self.window_pos(w) {
                Some(p) => Some(self.tiles[p]),
                None => None,
            },
            None => self.active_tile(),
        }
    }

    /// Whether the focused window floats.
    pub fn floating_is_active(&self) -> (b: bool)
        ensures
            b == self@.floating_is_active(),
    {
        match self.active_tile() {
            Some(t) => t.floating,
            None => false,
        }
    }

    /// Takes the focused column out. The focused window must not float.
    fn take_active_column(&mut self) -> (column: Option<Vec<Tile>>)
        ensures
            match column {
                Some(c) => old(self)@.active_column() == Some(c@) && final(self)@ == old(
                    self)@.take_active_column(),
                None => old(self)@.active_column() is None && final(self)@ == old(self)@,
            },
    {
        let leader = match self.active_tile() {
            Some(t) => if t.floating {
                return None;
            } else {
                t.column
            },
            None => {
                return None;
            },
        };
        let ghost all = self.tiles@;
        let mut column: Vec<Tile> = Vec::new();
        let mut rest: Vec<Tile> = Vec::new();
        let mut i: usize = 0;
        while i < self.tiles.len()
            invariant
                i <= self.tiles@.len(),
                *self == *old(self),
                all == self.tiles@,
                column@ == all.take(i as int).filter(in_column(leader)),
                rest@ == all.take(i as int).filter(not_in_column(leader)),
            decreases self.tiles@.len() - i,
        {
            let t = self.tiles[i];
            proof {
                assert(all.take(i + 1).drop_last() =~= all.take(i as int));
                assert(all.take(i + 1).last() == t);
                reveal(Seq::filter);
            }
            if t.column == leader && !t.floating {
                column.push(t);
            } else {
                rest.push(t);
            }
            i = i + 1;
        }
        assert(all.take(i as int) =~= all);
        let n: usize = rest.len();
        self.active = if n == 0 {
            None
        } else {
            Some(rest[n - 1].window.id)
        };
        self.tiles = rest;
        Some(column)
    }

    /// Puts the tiles `column` in, of which `head` has the focus.
    fn add_column(&mut self, column: &Vec<Tile>, head: Option<WindowId>, activate: bool)
        ensures
            final(self)@ == old(self)@.add_column(column@, head, activate),
    {
        let ghost start = self@;
        if activate || self.active.is_none() {
            self.active = head;
        }
        let ghost now = self@;
        let mut i: usize = 0;
        while i < column.len()
            invariant
                i <= column@.len(),
                self@ == (WorkspaceModel { tiles: start.tiles + column@.take(i as int), ..now }),
            decreases column@.len() - i,
        {
            self.tiles.push(column[i]);
            i = i + 1;
            assert(self.tiles@ =~= start.tiles + column@.take(i as int));
        }
        assert(column@.take(i as int) =~= column@);
    }
}

impl WorkspacePool {
    /// Takes the focused column off workspace `id`.
    fn take_active_column(&mut self, id: WorkspaceId) -> (column: Option<Vec<Tile>>)
        ensures
            match old(self)@.get(id) {
                Some(w) => match column {
                    Some(c) => w.active_column() == Some(c@) && final(self)@ == old(
                        self)@.take_active_column(id),
                    None => w.active_column() is None && final(self)@ == old(self)@,
                },
                None => column is None && final(self)@ == old(self)@,
            },
            final(self).next_id == old(self).next_id,
    {
        match self.position(id) {
            Some(p) => {
                let column = self.items[p].take_active_column();
                match column {
                    Some(c) => {
                        assert(self@.items =~= old(self)@.take_active_column(id).items);
                        Some(c)
                    },
                    None => {
                        assert(self@.items =~= old(self)@.items);
                        None
                    },
                }
            },
            None => None,
        }
    }

    /// Puts the tiles `column` on workspace `id`.
    fn add_column(
        &mut self,
        id: WorkspaceId,
        column: &Vec<Tile>,
        head: Option<WindowId>,
        activate: bool,
    )
        ensures
            final(self)@ == old(self)@.add_column(id, column@, head, activate),
            final(self).next_id == old(self).next_id,
    {
        if let Some(p) = self.position(id) {
            self.items[p].add_column(column, head, activate);
            assert(self@.items =~= old(self)@.add_column(id, column@, head, activate).items);
        }
    }
}

impl Layout {
    /// The workspace at `idx` of the active view of monitor `mon_idx`.
    pub fn workspace_at(&self, mon_idx: usize, idx: usize) -> (w: Option<&Workspace>)
        requires
            mon_idx < self@.monitors.len(),
        ensures
            match w {
                Some(w) => self@.workspace_at(mon_idx as int, idx as int) == Some(w@),
                None => self@.workspace_at(mon_idx as int, idx as int) is None,
            },
    {
        match self.activities.view_on(self.activities.active, self.monitors[mon_idx].output.id) {
            Some(v) => if idx < v.len() {
                self.workspaces.get(v.id_at(idx))
            } else {
                None
            },
            None => None,
        }
    }

    /// Length of the active view of monitor `mon_idx`.
    pub fn view_len(&self, mon_idx: usize) -> (n: usize)
        requires
            mon_idx < self@.monitors.len(),
        ensures
            n == self@.view_len(mon_idx as int),
    {
        match self.activities.view_on(self.activities.active, self.monitors[mon_idx].output.id) {
            Some(v) => v.len(),
            None => 0,
        }
    }

    /// The focused window of monitor `mon_idx`.
    pub fn active_window_on(&self, mon_idx: usize) -> (w: Option<WindowId>)
        requires
            mon_idx < self@.monitors.len(),
        ensures
            w == self@.active_window_on(mon_idx as int),
    {
        let idx: usize = self.active_place(mon_idx).1;
        match self.workspace_at(mon_idx, idx) {
            Some(w) => match w.active_tile() {
                Some(t) => Some(t.window.id),
                None => None,
            },
            None => None,
        }
    }

    /// The tile `which` of the workspace at `idx` of monitor `mon_idx`, and the workspace.
    fn tile_at(&self, mon_idx: usize, idx: usize, which: Option<WindowId>) -> (r: Option<
        (WorkspaceId, Tile),
    >)
        requires
            mon_idx < self@.monitors.len(),
        ensures
            match self@.workspace_at(mon_idx as int, idx as int) {
                Some(w) => match w.tile(which) {
                    Some(t) => r == Some((w.id, t)),
                    None => r is None,
                },
                None => r is None,
            },
    {
        match self.workspace_at(mon_idx, idx) {
            Some(w) => match w.tile(which) {
                Some(t) => Some((w.id, t)),
                None => None,
            },
            None => None,
        }
    }

    /// Moves the tile `which` from the workspace at `from` of monitor `mon_idx` to the one at `to`
    /// of monitor `mon2`, as a column of its own.
    fn carry(
        &mut self,
        mon_idx: usize,
        from: usize,
        which: Option<WindowId>,
        mon2: usize,
        to: usize,
        activate: ActivateWindow,
    )
        requires
            mon_idx < old(self)@.monitors.len(),
            mon2 < old(self)@.monitors.len(),
            old(self)@.carry(
                mon_idx as int,
                from as int,
                which,
                mon2 as int,
                to as int,
                activate,
            ).fits(),
        ensures
            final(self)@ == old(self)@.carry(
                mon_idx as int,
                from as int,
                which,
                mon2 as int,
                to as int,
                activate,
            ),
    {
        if let Some((id, t)) = self.tile_at(mon_idx, from, which) {
            let _tile = self.workspaces.remove_window(id, t.window.id);
            let tile = Tile { window: t.window, column: t.window.id, floating: t.floating };
            self.add_resolved_tile_on(mon2, to, tile, activate, None, true);
        }
    }

    /// Moves the focused window one workspace up.
    pub(crate) fn do_move_to_workspace_up(&mut self, focus: bool)
        requires
            old(self)@.monitors.len() > 0 ==> old(self)@.focused < old(self)@.monitors.len() && old(
                self)@.move_up(focus).fits(),
        ensures
            final(self)@ == old(self)@.move_up(focus),
    {
        if self.monitors.len() == 0 {
            return;
        }
        let mon: usize = self.active_monitor_idx;
        let from: usize = self.active_place(mon).1;
        if from > 0 {
            let activate = if focus {
                ActivateWindow::Yes
            } else {
                ActivateWindow::Smart
            };
            self.carry(mon, from, None, mon, from - 1, activate);
        }
    }

    /// Moves the focused window one workspace down.
    pub(crate) fn do_move_to_workspace_down(&mut self, focus: bool)
        requires
            old(self)@.monitors.len() > 0 ==> old(self)@.focused < old(self)@.monitors.len() && old(
                self)@.move_down(focus).fits(),
        ensures
            final(self)@ == old(self)@.move_down(focus),
    {
        if self.monitors.len() == 0 {
            return;
        }
        let mon: usize = self.active_monitor_idx;
        let from: usize = self.active_place(mon).1;
        if from < self.view_len(mon) && from + 1 < self.view_len(mon) {
            let activate = if focus {
                ActivateWindow::Yes
            } else {
                ActivateWindow::Smart
            };
            self.carry(mon, from, None, mon, from + 1, activate);
        }
    }

    /// Moves the focused window of monitor `mon` to a new workspace at `idx`, or to the empty one
    /// that stands in for it.
    fn carry_new(&mut self, mon: usize, idx: usize, activate: ActivateWindow)
        requires
            mon < old(self)@.monitors.len(),
            old(self)@.carry_new(mon as int, idx as int, activate).fits(),
        ensures
            final(self)@ == old(self)@.carry_new(mon as int, idx as int, activate),
    {
        broadcast use {lemma_place_resolved_leads, crate::bookends::lemma_mint_into_leads};

        let from: usize = self.active_place(mon).1;
        if let Some((id, t)) = self.tile_at(mon, from, None) {
            let n: usize = self.view_len(mon);
            let leading = self.monitors[mon].empty_workspace_above_first;
            let tile = Tile { window: t.window, column: t.window.id, floating: t.floating };
            let _tile = self.workspaces.remove_window(id, t.window.id);
            match resolve_insert_target(leading, idx, n) {
                BookendResolution::ReuseTop => {
                    self.add_resolved_tile_on(mon, 0, tile, activate, None, true);
                },
                BookendResolution::ReuseTrailing => {
                    self.add_resolved_tile_on(mon, n - 1, tile, activate, None, true);
                },
                BookendResolution::InsertAt(i) => {
                    self.add_workspace_at_on(mon, i);
                    self.add_resolved_tile_on(mon, i, tile, activate, None, true);
                },
            }
        }
    }

    /// Moves the focused window to a new workspace above.
    pub(crate) fn do_move_to_new_workspace_up(&mut self, focus: bool)
        requires
            old(self)@.monitors.len() > 0 ==> old(self)@.focused < old(self)@.monitors.len() && old(
                self)@.move_new(focus, 0).fits(),
        ensures
            final(self)@ == old(self)@.move_new(focus, 0),
    {
        if self.monitors.len() == 0 {
            return;
        }
        let mon: usize = self.active_monitor_idx;
        let idx: usize = self.active_place(mon).1;
        let activate = if focus {
            ActivateWindow::Yes
        } else {
            ActivateWindow::Smart
        };
        self.carry_new(mon, idx, activate);
    }

    /// Moves the focused window to a new workspace below.
    pub(crate) fn do_move_to_new_workspace_down(&mut self, focus: bool)
        requires
            old(self)@.monitors.len() > 0 ==> old(self)@.focused < old(self)@.monitors.len() && old(
                self)@.move_new(focus, 1).fits(),
        ensures
            final(self)@ == old(self)@.move_new(focus, 1),
    {
        if self.monitors.len() == 0 {
            return;
        }
        let mon: usize = self.active_monitor_idx;
        let idx: usize = self.active_place(mon).1;
        if idx >= self.view_len(mon) {
            return;
        }
        let activate = if focus {
            ActivateWindow::Yes
        } else {
            ActivateWindow::Smart
        };
        self.carry_new(mon, idx + 1, activate);
    }

    /// Opens a workspace at `idx` of monitor `mon`, or takes the empty one that stands in for it,
    /// and focuses it.
    fn open_workspace(&mut self, mon: usize, idx: usize)
        requires
            mon < old(self)@.monitors.len(),
            old(self)@.open_workspace(mon as int, idx as int).fits(),
        ensures
            final(self)@ == old(self)@.open_workspace(mon as int, idx as int),
    {
        broadcast use {
            crate::windows::lemma_focus_on_leads,
            crate::bookends::lemma_mint_into_leads,
        };

        let n: usize = self.view_len(mon);
        if n == 0 {
            return;
        }
        let leading = self.monitors[mon].empty_workspace_above_first;
        match resolve_insert_target(leading, idx, n) {
            BookendResolution::ReuseTop => {
                self.activate_workspace(mon, 0);
            },
            BookendResolution::ReuseTrailing => {
                self.activate_workspace(mon, n - 1);
            },
            BookendResolution::InsertAt(i) => {
                self.add_workspace_at_on(mon, i);
                self.activate_workspace(mon, i);
            },
        }
    }

    /// Opens a workspace right above the focused one and focuses it.
    pub(crate) fn do_add_workspace_up(&mut self)
        requires
            old(self)@.monitors.len() > 0 ==> old(self)@.focused < old(self)@.monitors.len() && old(
                self)@.open_beside(0).fits(),
        ensures
            final(self)@ == old(self)@.open_beside(0),
    {
        if self.monitors.len() == 0 {
            return;
        }
        let mon: usize = self.active_monitor_idx;
        let idx: usize = self.active_place(mon).1;
        self.open_workspace(mon, idx);
    }

    /// Opens a workspace right below the focused one and focuses it.
    pub(crate) fn do_add_workspace_down(&mut self)
        requires
            old(self)@.monitors.len() > 0 ==> old(self)@.focused < old(self)@.monitors.len() && old(
                self)@.open_beside(1).fits(),
        ensures
            final(self)@ == old(self)@.open_beside(1),
    {
        if self.monitors.len() == 0 {
            return;
        }
        let mon: usize = self.active_monitor_idx;
        let idx: usize = self.active_place(mon).1;
        if idx < self.view_len(mon) {
            self.open_workspace(mon, idx + 1);
        }
    }

    /// Destroys the stray empty workspaces of monitor `mon`, unless a switch is under way there.
    pub(crate) fn tidy(&mut self, mon: usize)
        requires
            mon < old(self)@.monitors.len(),
        ensures
            final(self)@ == old(self)@.tidy(mon as int),
    {
        if self.monitors[mon].workspace_switch.is_none() {
            self.clean_up_workspaces_on(mon);
        }
    }

    /// Where a command about window `window` finds it.
    fn command_place(&self, window: Option<WindowId>) -> (p: Option<(usize, usize)>)
        requires
            self@.monitors.len() > 0 ==> self@.focused < self@.monitors.len(),
        ensures
            match p {
                Some(p) => self@.command_place(window) == Some((p.0 as int, p.1 as int)) && p.0
                    < self@.monitors.len(),
                None => self@.command_place(window) is None,
            },
    {
        if let Some(InteractiveMoveState::Moving(d)) = self.interactive_move {
            match window {
                None => {
                    return None;
                },
                Some(w) => {
                    if d.tile.window.id == w {
                        return None;
                    }
                },
            }
        }
        if self.monitors.len() == 0 {
            return None;
        }
        match window {
            Some(w) => self.window_place(w),
            None => Some(self.active_place(self.active_monitor_idx)),
        }
    }

    /// Moves the window `window` of the workspace at `from` of monitor `mon` to the one at `idx`.
    fn shift_window(
        &mut self,
        mon: usize,
        from: usize,
        window: Option<WindowId>,
        idx: usize,
        activate: ActivateWindow,
    )
        requires
            mon < old(self)@.monitors.len(),
            old(self)@.shift_window(mon as int, from as int, window, idx as int, activate).fits(),
        ensures
            final(self)@ == old(self)@.shift_window(
                mon as int,
                from as int,
                window,
                idx as int,
                activate,
            ),
    {
        broadcast use {lemma_carry_leads, lemma_tidy_leads};

        let n: usize = self.view_len(mon);
        if self.tile_at(mon, from, window).is_none() {
            return;
        }
        let to: usize = if idx < n {
            idx
        } else {
            n - 1
        };
        if to == from {
            return;
        }
        let smart = match window {
            None => true,
            Some(w) => match self.active_window_on(mon) {
                Some(a) => a == w,
                None => false,
            },
        };
        let how = if activate.decide(smart) {
            ActivateWindow::Yes
        } else {
            ActivateWindow::No
        };
        self.carry(mon, from, window, mon, to, how);
        self.tidy(mon);
    }

    /// Moves a window, or the focused one, to the workspace at `idx` of its monitor.
    pub(crate) fn do_move_to_workspace(
        &mut self,
        window: Option<WindowId>,
        idx: usize,
        activate: ActivateWindow,
    )
        requires
            old(self)@.monitors.len() > 0 ==> old(self)@.focused < old(self)@.monitors.len(),
            old(self)@.move_to_workspace(window, idx as int, activate).fits(),
        ensures
            final(self)@ == old(self)@.move_to_workspace(window, idx as int, activate),
    {
        if let Some((mon, from)) = self.command_place(window) {
            self.shift_window(mon, from, window, idx, activate);
        }
    }

    /// Moves a window, or the focused one, to the workspace at `idx` of output `output`, or to the
    /// active one there.
    pub(crate) fn do_move_to_output(
        &mut self,
        window: Option<WindowId>,
        output: OutputId,
        idx: Option<usize>,
        activate: ActivateWindow,
    )
        requires
            old(self)@.monitors.len() > 0 ==> old(self)@.focused < old(self)@.monitors.len(),
            old(self)@.command_place(window) is Some ==> old(self)@.monitor_pos(output) is Some
                && old(self)@.move_to_output(
                window,
                old(self)@.monitor_pos(output).unwrap(),
                opt_int(idx),
                activate,
            ).fits(),
        ensures
            final(self)@ == old(self)@.move_to_output(
                window,
                old(self)@.monitor_pos(output).unwrap(),
                opt_int(idx),
                activate,
            ),
    {
        broadcast use {lemma_carry_leads, lemma_tidy_leads};

        let mon2: usize = match self.monitor_idx(output) {
            Some(m) => m,
            None => {
                return;
            },
        };
        if let Some((mon, from)) = self.command_place(window) {
            let to: usize = match idx {
                Some(i) => i,
                None => self.active_place(mon2).1,
            };
            if (mon == mon2 && from == to) || self.view_len(mon2) <= to || self.tile_at(
                mon,
                from,
                window,
            ).is_none() {
                return;
            }
            let smart = match window {
                None => true,
                Some(w) => mon == self.active_monitor_idx && match self.active_window_on(mon) {
                    Some(a) => a == w,
                    None => false,
                },
            };
            let focus = activate.decide(smart);
            let how = if focus {
                ActivateWindow::Yes
            } else {
                ActivateWindow::No
            };
            self.carry(mon, from, window, mon2, to, how);
            if focus {
                self.active_monitor_idx = mon2;
            }
            self.tidy(mon);
        }
    }

    /// Moves the focused column of the workspace at `from` of monitor `mon` to the one at `to` of
    /// monitor `mon2`.
    fn carry_column(&mut self, mon: usize, from: usize, mon2: usize, to: usize, activate: bool)
        requires
            mon < old(self)@.monitors.len(),
            mon2 < old(self)@.monitors.len(),
        ensures
            final(self)@ == old(self)@.carry_column(
                mon as int,
                from as int,
                mon2 as int,
                to as int,
                activate,
            ),
    {
        let (id, head) = match self.workspace_at(mon, from) {
            Some(w) => (w.id, w.active),
            None => {
                return;
            },
        };
        if to >= self.view_len(mon2) {
            return;
        }
        proof {
            lemma_at_is_there(self@, mon as int, from as int);
        }
        if let Some(column) = self.workspaces.take_active_column(id) {
            self.put_column(mon2, to, &column, head, activate);
        }
    }

    /// Puts the tiles `column`, of which `head` has the focus, on the workspace at `idx` of monitor
    /// `mon`.
    fn put_column(
        &mut self,
        mon: usize,
        idx: usize,
        column: &Vec<Tile>,
        head: Option<WindowId>,
        activate: bool,
    )
        requires
            mon < old(self)@.monitors.len(),
        ensures
            final(self)@ == old(self)@.put_column(mon as int, idx as int, column@, head, activate),
    {
        let target = match self.activities.view_on(
            self.activities.active,
            self.monitors[mon].output.id,
        ) {
            Some(v) => if idx < v.len() {
                v.id_at(idx)
            } else {
                return;
            },
            None => {
                return;
            },
        };
        self.workspaces.add_column(target, column, head, activate);
        self.claim(mon, target);
        if activate {
            self.activate_workspace(mon, idx);
        }
    }

    /// Puts the tiles `column`, of which `head` has the focus, on the workspace at `workspace_idx`
    /// of monitor `monitor_idx`.
    pub(crate) fn do_add_column_by_idx(
        &mut self,
        monitor_idx: usize,
        workspace_idx: usize,
        column: &Vec<Tile>,
        head: Option<WindowId>,
        activate: bool,
    )
        requires
            monitor_idx < old(self)@.monitors.len(),
            workspace_idx < old(self)@.view_len(monitor_idx as int),
            old(self)@.add_column(
                monitor_idx as int,
                workspace_idx as int,
                column@,
                head,
                activate,
            ).fits(),
        ensures
            final(self)@ == old(self)@.add_column(
                monitor_idx as int,
                workspace_idx as int,
                column@,
                head,
                activate,
            ),
    {
        self.put_column(monitor_idx, workspace_idx, column, head, activate);
        if activate {
            self.active_monitor_idx = monitor_idx;
        }
        let _minted = self.normalize_view_bookends();
    }

    /// Moves the focused column of monitor `mon` to the workspace at `to`; a window that floats
    /// moves alone.
    fn shift_column(&mut self, mon: usize, to: usize, activate: bool, smart: ActivateWindow)
        requires
            mon < old(self)@.monitors.len(),
            old(self)@.shift_column(mon as int, to as int, activate, smart).fits(),
        ensures
            final(self)@ == old(self)@.shift_column(mon as int, to as int, activate, smart),
    {
        let from: usize = self.active_place(mon).1;
        let floating = match self.workspace_at(mon, from) {
            Some(w) => w.floating_is_active(),
            None => {
                return;
            },
        };
        if to == from {
            return;
        }
        if floating {
            self.carry(mon, from, None, mon, to, smart);
        } else {
            self.carry_column(mon, from, mon, to, activate);
        }
    }

    /// Moves the focused column one workspace up.
    pub(crate) fn do_move_column_to_workspace_up(&mut self, activate: bool)
        requires
            old(self)@.monitors.len() > 0 ==> old(self)@.focused < old(self)@.monitors.len() && old(
                self)@.column_up(activate).fits(),
        ensures
            final(self)@ == old(self)@.column_up(activate),
    {
        if self.monitors.len() == 0 {
            return;
        }
        let ghost start = self@;
        let mon: usize = self.active_monitor_idx;
        let from: usize = self.active_place(mon).1;
        let smart = if activate {
            ActivateWindow::Yes
        } else {
            ActivateWindow::Smart
        };
        if from > 0 {
            proof {
                crate::bookends::lemma_normalize_leads(
                    start.shift_column(mon as int, from - 1, activate, smart),
                );
            }
            self.shift_column(mon, from - 1, activate, smart);
        }
        let _minted = self.normalize_view_bookends();
    }

    /// Moves the focused column one workspace down.
    pub(crate) fn do_move_column_to_workspace_down(&mut self, activate: bool)
        requires
            old(self)@.monitors.len() > 0 ==> old(self)@.focused < old(self)@.monitors.len() && old(
                self)@.column_down(activate).fits(),
        ensures
            final(self)@ == old(self)@.column_down(activate),
    {
        if self.monitors.len() == 0 {
            return;
        }
        let ghost start = self@;
        let mon: usize = self.active_monitor_idx;
        let from: usize = self.active_place(mon).1;
        let smart = if activate {
            ActivateWindow::Yes
        } else {
            ActivateWindow::Smart
        };
        if from < self.view_len(mon) && from + 1 < self.view_len(mon) {
            proof {
                crate::bookends::lemma_normalize_leads(
                    start.shift_column(mon as int, from + 1, activate, smart),
                );
            }
            self.shift_column(mon, from + 1, activate, smart);
        }
        let _minted = self.normalize_view_bookends();
    }

    /// Moves the focused column to the workspace at `idx` of its monitor.
    pub(crate) fn do_move_column_to_workspace(&mut self, idx: usize, activate: bool)
        requires
            old(self)@.monitors.len() > 0 ==> old(self)@.focused < old(self)@.monitors.len() && old(
                self)@.move_column_to_workspace(idx as int, activate).fits(),
        ensures
            final(self)@ == if old(self)@.monitors.len() == 0 {
                old(self)@
            } else {
                old(self)@.move_column_to_workspace(idx as int, activate)
            },
    {
        if self.monitors.len() == 0 {
            return;
        }
        let ghost start = self@;
        let mon: usize = self.active_monitor_idx;
        let from: usize = self.active_place(mon).1;
        let n: usize = self.view_len(mon);
        let floating = match self.workspace_at(mon, from) {
            Some(w) => w.floating_is_active(),
            None => {
                return;
            },
        };
        let to: usize = if idx < n {
            idx
        } else {
            n - 1
        };
        if to != from {
            if floating {
                let smart = if activate {
                    ActivateWindow::Smart
                } else {
                    ActivateWindow::No
                };
                proof {
                    crate::bookends::lemma_normalize_leads(
                        start.shift_window(mon as int, from as int, None, idx as int, smart),
                    );
                }
                self.shift_window(mon, from, None, idx, smart);
            } else {
                self.carry_column(mon, from, mon, to, activate);
            }
        }
        let _minted = self.normalize_view_bookends();
    }

    /// Puts the focused column of the focused workspace on the one at `idx` of output `output`, or
    /// on the active one there.
    pub(crate) fn do_move_column_to_output(&mut self, output: OutputId, idx: Option<usize>, activate: bool)
        requires
            old(self)@.monitors.len() > 0 ==> {
                &&& old(self)@.focused < old(self)@.monitors.len()
                &&& old(self)@.monitor_pos(output) is Some
                &&& old(self)@.move_column_to_output(
                    old(self)@.monitor_pos(output).unwrap(),
                    opt_int(idx),
                    activate,
                ).fits()
            },
        ensures
            final(self)@ == if old(self)@.monitors.len() == 0 {
                old(self)@
            } else {
                old(self)@.move_column_to_output(
                    old(self)@.monitor_pos(output).unwrap(),
                    opt_int(idx),
                    activate,
                )
            },
    {
        if self.monitors.len() == 0 {
            return;
        }
        let mon2: usize = match self.monitor_idx(output) {
            Some(m) => m,
            None => {
                return;
            },
        };
        let mon: usize = self.active_monitor_idx;
        let from: usize = self.active_place(mon).1;
        let (floating, nothing) = match self.workspace_at(mon, from) {
            Some(w) => (w.floating_is_active(), w.active_tile().is_none()),
            None => {
                return;
            },
        };
        if floating {
            self.do_move_to_output(None, output, None, ActivateWindow::Smart);
            return;
        }
        if nothing {
            return;
        }
        let n: usize = self.view_len(mon2);
        let want: usize = match idx {
            Some(i) => i,
            None => self.active_place(mon2).1,
        };
        if n > 0 {
            let to: usize = if want < n {
                want
            } else {
                n - 1
            };
            self.carry_column(mon, from, mon2, to, activate);
        }
        if activate {
            self.active_monitor_idx = mon2;
        }
        let _minted = self.normalize_view_bookends();
    }

    /// Moves a window, or the focused one, to the workspace with the number `raw`, in any
    /// activity. If the active activity shows that one, nothing happens here.
    pub(crate) fn do_move_window_to_pool_workspace(
        &mut self,
        window: Option<WindowId>,
        raw: u64,
        activate: ActivateWindow,
    ) -> (r: Result<MoveWindowToPoolOutcome, MoveWindowToPoolError>)
        requires
            old(self)@.pool_move(window, raw) == Ok::<
                MoveWindowToPoolOutcome,
                MoveWindowToPoolError,
            >((MoveWindowToPoolOutcome::MovedDormant { ws_id: WorkspaceId(raw) })) ==> old(
                self)@.move_to_pool(window, WorkspaceId(raw), activate).fits(),
        ensures
            r == old(self)@.pool_move(window, raw),
            final(self)@ == if r is Ok && r->Ok_0 is MovedDormant {
                old(self)@.move_to_pool(window, WorkspaceId(raw), activate)
            } else {
                old(self)@
            },
    {
        broadcast use lemma_tidy_leads;

        let id = WorkspaceId(raw);
        if !self.workspaces.contains(id) {
            return Err(MoveWindowToPoolError::TargetUnreachable);
        }
        if self.monitor_showing(id).is_some() {
            return Ok(MoveWindowToPoolOutcome::DelegateToActiveView);
        }
        let routed: Option<usize> = match self.workspaces.get(id) {
            Some(w) => match w.output_id {
                Some(out) => self.monitor_idx(out),
                None => None,
            },
            None => None,
        };
        if routed.is_none() {
            return Err(MoveWindowToPoolError::TargetUnreachable);
        }
        let source: Option<(usize, usize)> = match window {
            Some(w) => self.window_place(w),
            None => if self.active_monitor_idx < self.monitors.len() {
                Some(self.active_place(self.active_monitor_idx))
            } else {
                None
            },
        };
        let (mon, from) = match source {
            Some(p) => p,
            None => {
                return Ok(MoveWindowToPoolOutcome::NothingToMove);
            },
        };
        let (source_id, t) = match self.tile_at(mon, from, window) {
            Some(x) => x,
            None => {
                return Ok(MoveWindowToPoolOutcome::NothingToMove);
            },
        };
        let how = match activate {
            ActivateWindow::No => ActivateWindow::No,
            _ => ActivateWindow::Yes,
        };
        let tile = Tile { window: t.window, column: t.window.id, floating: t.floating };
        let _tile = self.workspaces.remove_window(source_id, t.window.id);
        self.add_to(id, tile, how, None);
        proof {
            crate::bookends::lemma_normalize_leads(self@);
        }
        let _minted = self.normalize_view_bookends();
        self.tidy(mon);
        Ok(MoveWindowToPoolOutcome::MovedDormant { ws_id: id })
    }
}

/// An optional index as a mathematical one.
pub open spec fn opt_int(i: Option<usize>) -> Option<int> {
    match i {
        Some(i) => Some(i as int),
        None => None,
    }
}

/// A workspace in the pool is found by its id.
pub proof fn lemma_at_is_there(s: LayoutModel, mon: int, idx: int)
    ensures
        match s.workspace_at(mon, idx) {
            Some(w) => s.pool.get(w.id) == Some(w),
            None => true,
        },
{
    if let Some(v) = s.active_view(s.monitors[mon].output.id) {
        if 0 <= idx < v.ids.len() {
            crate::search::lemma_find_from(s.pool.items, crate::pool::has_id(v.ids[idx]), 0);
        }
    }
}

impl LayoutModel {
    /// The focused window moved one workspace up.
    pub open spec fn move_up(self, focus: bool) -> LayoutModel {
        let from = self.active_place(self.focused).1;
        if self.monitors.len() == 0 || from == 0 {
            self
        } else {
            self.carry(
                self.focused,
                from,
                None,
                self.focused,
                from - 1,
                if focus {
                    ActivateWindow::Yes
                } else {
                    ActivateWindow::Smart
                },
            )
        }
    }

    /// The focused window moved one workspace down.
    pub open spec fn move_down(self, focus: bool) -> LayoutModel {
        let from = self.active_place(self.focused).1;
        if self.monitors.len() == 0 || from + 1 >= self.view_len(self.focused) {
            self
        } else {
            self.carry(
                self.focused,
                from,
                None,
                self.focused,
                from + 1,
                if focus {
                    ActivateWindow::Yes
                } else {
                    ActivateWindow::Smart
                },
            )
        }
    }

    /// The focused window moved to a new workspace `below` places below where it is.
    pub open spec fn move_new(self, focus: bool, below: int) -> LayoutModel {
        if self.monitors.len() == 0 {
            self
        } else {
            self.carry_new(
                self.focused,
                self.active_place(self.focused).1 + below,
                if focus {
                    ActivateWindow::Yes
                } else {
                    ActivateWindow::Smart
                },
            )
        }
    }

    /// A new workspace `below` places below the focused one, focused.
    pub open spec fn open_beside(self, below: int) -> LayoutModel {
        if self.monitors.len() == 0 {
            self
        } else if below > 0 && self.active_place(self.focused).1 >= self.view_len(self.focused) {
            self
        } else {
            self.open_workspace(self.focused, self.active_place(self.focused).1 + below)
        }
    }

    /// The focused column moved one workspace up.
    pub open spec fn column_up(self, activate: bool) -> LayoutModel {
        let from = self.active_place(self.focused).1;
        if self.monitors.len() == 0 {
            self
        } else if from == 0 {
            self.normalize()
        } else {
            self.shift_column(
                self.focused,
                from - 1,
                activate,
                if activate {
                    ActivateWindow::Yes
                } else {
                    ActivateWindow::Smart
                },
            ).normalize()
        }
    }

    /// The focused column moved one workspace down.
    pub open spec fn column_down(self, activate: bool) -> LayoutModel {
        let from = self.active_place(self.focused).1;
        if self.monitors.len() == 0 {
            self
        } else if from + 1 >= self.view_len(self.focused) {
            self.normalize()
        } else {
            self.shift_column(
                self.focused,
                from + 1,
                activate,
                if activate {
                    ActivateWindow::Yes
                } else {
                    ActivateWindow::Smart
                },
            ).normalize()
        }
    }
}

} // verus!
