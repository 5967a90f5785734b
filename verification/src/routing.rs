//! Which workspace carries out a command, and where the hint of a drag is shown.

use vstd::prelude::*;

use crate::ids::{OutputId, WindowId, WorkspaceId};
use crate::interactive::InsertWorkspace;
use crate::layout::{InteractiveMoveState, Layout, LayoutModel};

verus! {

/// Where on its workspace a dragged window would drop.
#[derive(Clone, Copy, Debug, PartialEq, Eq, Structural)]
pub enum InsertPosition {
    /// In a column of its own, at that index.
    NewColumn(usize),
    /// In the column at the first index, at the second one.
    InColumn(usize, usize),
    /// Among the floating windows.
    Floating,
}

/// The hint that tells where a dragged window would drop.
#[derive(Clone, Copy, Debug, PartialEq, Eq, Structural)]
pub struct InsertHint {
    /// The workspace.
    pub workspace: InsertWorkspace,
    /// The place on it.
    pub position: InsertPosition,
}

impl LayoutModel {
    /// The first workspace that has window `w`, unless that is dragged.
    pub open spec fn undragged_home(self, w: WindowId) -> Option<WorkspaceId> {
        if self.is_dragged(w) {
            None
        } else {
            self.home_of(w)
        }
    }

    /// The workspace on screen, or else the parked one, that has window `w`, unless that is
    /// dragged.
    pub open spec fn undragged_resident(self, w: WindowId) -> Option<WorkspaceId> {
        if self.is_dragged(w) {
            None
        } else {
            self.resident_workspace(w)
        }
    }

    /// The hint, and the index of the monitor that shows it, as long as a window is dragged over
    /// output `out`, or over any: over workspace `over`, where it would drop at `tiled` if it does
    /// not float. On a new workspace it makes the first column.
    pub open spec fn insert_hint(
        self,
        out: Option<OutputId>,
        over: InsertWorkspace,
        tiled: InsertPosition,
    ) -> Option<(int, InsertHint)> {
        match self.moving {
            Some(InteractiveMoveState::Moving(d)) => match self.monitor_pos(d.output.id) {
                Some(m) => if out is Some && out != Some(d.output.id) {
                    None
                } else {
                    Some(
                        (
                            m,
                            InsertHint {
                                workspace: over,
                                position: if d.tile.floating {
                                    InsertPosition::Floating
                                } else {
                                    match over {
                                        InsertWorkspace::Existing(_) => tiled,
                                        InsertWorkspace::NewAt(_) => InsertPosition::NewColumn(0),
                                    }
                                },
                            },
                        ),
                    )
                },
                None => None,
            },
            _ => None,
        }
    }
}

impl Layout {
    /// The hint of the drag, and the index of the monitor that shows it; no other monitor shows
    /// one.
    pub fn update_insert_hint(
        &self,
        output: Option<OutputId>,
        over: InsertWorkspace,
        tiled: InsertPosition,
    ) -> (h: Option<(usize, InsertHint)>)
        ensures
            match h {
                Some((m, h)) => self@.insert_hint(output, over, tiled) == Some((m as int, h)),
                None => self@.insert_hint(output, over, tiled) is None,
            },
    {
        let d = match self.interactive_move {
            Some(InteractiveMoveState::Moving(d)) => d,
            _ => {
                return None;
            },
        };
        let m: usize = match self.monitor_idx(d.output.id) {
            Some(m) => m,
            None => {
                return None;
            },
        };
        if let Some(out) = output {
            if out != d.output.id {
                return None;
            }
        }
        let position = if d.tile.floating {
            InsertPosition::Floating
        } else {
            match over {
                InsertWorkspace::Existing(_) => tiled,
                InsertWorkspace::NewAt(_) => InsertPosition::NewColumn(0),
            }
        };
        Some((m, InsertHint { workspace: over, position }))
    }

    /// The workspace that takes the window into the column on its left, or out of its own: that of
    /// `window`, or the active one. None does while that window is dragged.
    pub fn consume_or_expel_window_left(&self, window: Option<WindowId>) -> (id: Option<
        WorkspaceId,
    >)
        requires
            self@.monitors.len() > 0 ==> self@.focused < self@.monitors.len(),
        ensures
            id == self@.command_workspace(window),
    {
        self.command_workspace(window)
    }

    /// The workspace that takes the window into the column on its right, or out of its own: that of
    /// `window`, or the active one. None does while that window is dragged.
    pub fn consume_or_expel_window_right(&self, window: Option<WindowId>) -> (id: Option<
        WorkspaceId,
    >)
        requires
            self@.monitors.len() > 0 ==> self@.focused < self@.monitors.len(),
        ensures
            id == self@.command_workspace(window),
    {
        self.command_workspace(window)
    }

    /// The workspace that gives the window the next of the preset widths: that of `window`, or the
    /// active one. None does while that window is dragged.
    pub fn toggle_window_width(&self, window: Option<WindowId>) -> (id: Option<WorkspaceId>)
        requires
            self@.monitors.len() > 0 ==> self@.focused < self@.monitors.len(),
        ensures
            id == self@.command_workspace(window),
    {
        self.command_workspace(window)
    }

    /// The workspace that gives the window the next of the preset heights: that of `window`, or the
    /// active one. None does while that window is dragged.
    pub fn toggle_window_height(&self, window: Option<WindowId>) -> (id: Option<WorkspaceId>)
        requires
            self@.monitors.len() > 0 ==> self@.focused < self@.monitors.len(),
        ensures
            id == self@.command_workspace(window),
    {
        self.command_workspace(window)
    }

    /// The workspace that changes the width of the window: that of `window`, or the active one.
    /// None does while that window is dragged.
    pub fn set_window_width(&self, window: Option<WindowId>) -> (id: Option<WorkspaceId>)
        requires
            self@.monitors.len() > 0 ==> self@.focused < self@.monitors.len(),
        ensures
            id == self@.command_workspace(window),
    {
        self.command_workspace(window)
    }

    /// The workspace that changes the height of the window: that of `window`, or the active one.
    /// None does while that window is dragged.
    pub fn set_window_height(&self, window: Option<WindowId>) -> (id: Option<WorkspaceId>)
        requires
            self@.monitors.len() > 0 ==> self@.focused < self@.monitors.len(),
        ensures
            id == self@.command_workspace(window),
    {
        self.command_workspace(window)
    }

    /// The workspace that lets the height of the window follow from its column again: that of
    /// `window`, or the active one. None does while that window is dragged.
    pub fn reset_window_height(&self, window: Option<WindowId>) -> (id: Option<WorkspaceId>)
        requires
            self@.monitors.len() > 0 ==> self@.focused < self@.monitors.len(),
        ensures
            id == self@.command_workspace(window),
    {
        self.command_workspace(window)
    }

    /// The workspace that centers the window: that of `window`, or the active one. None does
    /// while that window is dragged.
    pub fn center_window(&self, window: Option<WindowId>) -> (id: Option<WorkspaceId>)
        requires
            self@.monitors.len() > 0 ==> self@.focused < self@.monitors.len(),
        ensures
            id == self@.command_workspace(window),
    {
        self.command_workspace(window)
    }

    /// The workspace that moves the floating window: that of `window`, or the active one. None does
    /// while that window is dragged.
    pub fn move_floating_window(&self, window: Option<WindowId>) -> (id: Option<WorkspaceId>)
        requires
            self@.monitors.len() > 0 ==> self@.focused < self@.monitors.len(),
        ensures
            id == self@.command_workspace(window),
    {
        self.command_workspace(window)
    }

    /// The workspace that makes window `window` fullscreen, or no longer. None does while that is
    /// dragged.
    pub fn toggle_fullscreen(&self, window: WindowId) -> (id: Option<WorkspaceId>)
        ensures
            id == self@.undragged_home(window),
    {
        if self.is_dragged(window) {
            None
        } else {
            self.home_of(window)
        }
    }

    /// The workspace that maximizes window `window`, or no longer. None does while that is dragged.
    pub fn toggle_maximized(&self, window: WindowId) -> (id: Option<WorkspaceId>)
        ensures
            id == self@.undragged_home(window),
    {
        if self.is_dragged(window) {
            None
        } else {
            self.home_of(window)
        }
    }

    /// The workspace that maximizes window `window` or not. None does while that is dragged.
    pub fn set_maximized(&self, window: WindowId) -> (id: Option<WorkspaceId>)
        ensures
            id == self@.undragged_home(window),
    {
        if self.is_dragged(window) {
            None
        } else {
            self.home_of(window)
        }
    }

    /// The workspace that shows window `window` opening. None does while that is dragged.
    pub fn start_open_animation_for_window(&self, window: WindowId) -> (id: Option<WorkspaceId>)
        ensures
            id == self@.undragged_home(window),
    {
        if self.is_dragged(window) {
            None
        } else {
            self.home_of(window)
        }
    }

    /// The workspace that keeps a picture of window `window` for its closing: one on screen, or
    /// else a parked one. None does while that is dragged.
    pub fn store_unmap_snapshot(&self, window: WindowId) -> (id: Option<WorkspaceId>)
        ensures
            id == self@.undragged_resident(window),
    {
        self.update_window(window)
    }

    /// The workspace that forgets the picture of window `window`: one on screen, or else a parked
    /// one. None does while that is dragged.
    pub fn clear_unmap_snapshot(&self, window: WindowId) -> (id: Option<WorkspaceId>)
        ensures
            id == self@.undragged_resident(window),
    {
        self.update_window(window)
    }

    /// The workspace that shows window `window` closing: one on screen, or else a parked one. None
    /// does while that is dragged.
    pub fn start_close_animation_for_window(&self, window: WindowId) -> (id: Option<WorkspaceId>)
        ensures
            id == self@.undragged_resident(window),
    {
        self.update_window(window)
    }
}

} // verus!
