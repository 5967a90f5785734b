//! Which workspace or output a command goes to, and what the layout itself does about it.

use vstd::prelude::*;

use crate::ids::{OutputId, WindowId, WorkspaceId};
use crate::layout::{InteractiveMoveData, InteractiveMoveState, Layout, LayoutModel};
use crate::monitor::WorkspaceSwitch;
use crate::windows::id_having;
use crate::workspace::{Output, Tile};

verus! {

/// The unit of sizes relative to another size.
#[derive(Clone, Copy, Debug, PartialEq, Eq, Structural)]
pub struct SizeFrac;

/// The edges by which a window is resized.
#[derive(Clone, Copy, Debug, PartialEq, Eq, Structural)]
pub struct InteractiveResizeData {
    /// Whether the top edge moves.
    pub top: bool,
    /// Whether the bottom edge moves.
    pub bottom: bool,
    /// Whether the left edge moves.
    pub left: bool,
    /// Whether the right edge moves.
    pub right: bool,
}

/// Whether a window has to be told about its new state.
#[derive(Clone, Copy, Debug, PartialEq, Eq, Structural)]
pub enum ConfigureIntent {
    /// Nothing has changed.
    NotNeeded,
    /// It has, but the window was told too recently.
    Throttled,
    /// It has, and the window can be told.
    CanSend,
    /// It has, and the window has to be told at once.
    ShouldSend,
}

impl LayoutModel {
    /// The window that has the focus, and the output it is on: the dragged one, or else the
    /// focused one of the focused monitor.
    pub open spec fn focus(self) -> Option<(WindowId, Output)> {
        match self.moving {
            Some(InteractiveMoveState::Moving(d)) => Some((d.tile.window.id, d.output)),
            _ => if self.monitors.len() == 0 {
                None
            } else {
                match self.active_window_on(self.focused) {
                    Some(w) => Some((w, self.monitors[self.focused].output)),
                    None => None,
                }
            },
        }
    }

    /// The workspace that carries out a command about window `w`, or about the focused one: none
    /// while that window is dragged.
    pub open spec fn command_workspace(self, w: Option<WindowId>) -> Option<WorkspaceId> {
        if self.moving is Some && self.moving.unwrap() is Moving && (w is None || self.is_dragged(
            w.unwrap(),
        )) {
            None
        } else {
            match w {
                Some(w) => self.home_of(w),
                None => self.active_workspace(),
            }
        }
    }

    /// The workspace on screen, or else the parked one, that has window `w`.
    pub open spec fn resident_workspace(self, w: WindowId) -> Option<WorkspaceId> {
        match self.window_place(w) {
            Some((mon, idx)) => Some(
                self.active_view(self.monitors[mon].output.id).unwrap().ids[idx],
            ),
            None => match crate::search::find(self.parked, id_having(self.pool, w)) {
                Some(i) => Some(self.parked[i]),
                None => None,
            },
        }
    }

    /// The dragged window floating or not. One that floats lets go of the views.
    pub open spec fn float_dragged(self, d: InteractiveMoveData, floating: bool) -> LayoutModel {
        let s = LayoutModel {
            moving: Some(
                InteractiveMoveState::Moving(
                    InteractiveMoveData { tile: Tile { floating, ..d.tile }, ..d },
                ),
            ),
            ..self
        };
        if floating {
            s.hold_views(false)
        } else {
            s
        }
    }

    /// Whether moving the pointer over window `w` may give it the focus: not while its workspace
    /// slides out of sight.
    pub open spec fn pointer_may_focus(self, w: WindowId) -> bool {
        if self.is_dragged(w) || self.monitors.len() == 0 {
            true
        } else {
            match self.window_place(w) {
                Some((mon, idx)) => {
                    ||| self.monitors[mon].workspace_switch matches Some(
                        WorkspaceSwitch::Gesture { .. },
                    )
                    ||| idx == self.active_place(mon).1
                },
                None => true,
            }
        }
    }

    /// The output that window `w` is on, if there is such a window: the one it is dragged over, or
    /// the one that its workspace is routed to, if that is connected.
    pub open spec fn output_of_window(self, w: WindowId) -> Option<Option<Output>> {
        match self.moving {
            Some(InteractiveMoveState::Moving(d)) if d.tile.window.id == w => Some(Some(d.output)),
            _ => match self.home_of(w) {
                Some(id) => match self.routed_monitor(id) {
                    Some(m) => Some(Some(self.monitors[m].output)),
                    None => Some(None),
                },
                None => None,
            },
        }
    }

    /// Whether the first workspace that has window `w` belongs to the active activity.
    pub open spec fn on_active_activity(self, w: WindowId) -> Option<bool> {
        match self.home_of(w) {
            Some(id) => Some(self.is_member(self.acts.active, id)),
            None => None,
        }
    }
}

impl Layout {
    /// The window that has the focus, and the output it is on.
    pub fn focus_with_output(&self) -> (r: Option<(WindowId, Output)>)
        requires
            self@.monitors.len() > 0 ==> self@.focused < self@.monitors.len(),
        ensures
            r == self@.focus(),
    {
        if let Some(InteractiveMoveState::Moving(d)) = self.interactive_move {
            return Some((d.tile.window.id, d.output));
        }
        if self.monitors.len() == 0 {
            return None;
        }
        let mon: usize = self.active_monitor_idx;
        match self.active_window_on(mon) {
            Some(w) => Some((w, self.monitors[mon].output)),
            None => None,
        }
    }

    /// The window that has the focus.
    pub fn focus(&self) -> (w: Option<WindowId>)
        requires
            self@.monitors.len() > 0 ==> self@.focused < self@.monitors.len(),
        ensures
            w == match self@.focus() {
                Some((w, _)) => Some(w),
                None => None,
            },
    {
        match self.focus_with_output() {
            Some((w, _)) => Some(w),
            None => None,
        }
    }

    /// The workspace that carries out a command about window `window`, or about the focused one.
    pub fn command_workspace(&self, window: Option<WindowId>) -> (id: Option<WorkspaceId>)
        requires
            self@.monitors.len() > 0 ==> self@.focused < self@.monitors.len(),
        ensures
            id == self@.command_workspace(window),
    {
        if let Some(InteractiveMoveState::Moving(d)) = self.interactive_move {
            match window {
                None => {
                    return None;
                },
                Some(w) => {
                    if d.tile.window.id == w {
                        return None;
                    }
                },
            }
        }
        match window {
            Some(w) => self.home_of(w),
            None => self.active_workspace_id(),
        }
    }

    /// The workspace on screen, or else the parked one, that has window `window`.
    pub fn resident_workspace(&self, window: WindowId) -> (id: Option<WorkspaceId>)
        ensures
            id == self@.resident_workspace(window),
    {
        if let Some((mon, idx)) = self.window_place(window) {
            return match self.activities.view_on(
                self.activities.active,
                self.monitors[mon].output.id,
            ) {
                Some(v) => Some(v.id_at(idx)),
                None => None,
            };
        }
        match self.workspaces.first_having(&self.disconnected_workspace_ids, window) {
            Some(i) => Some(self.disconnected_workspace_ids[i]),
            None => None,
        }
    }

    /// Makes a dragged window float or no longer float, and returns `None`; for any other window,
    /// or the focused one, returns the workspace that has to do it.
    pub fn toggle_window_floating(&mut self, window: Option<WindowId>) -> (id: Option<WorkspaceId>)
        requires
            old(self)@.monitors.len() > 0 ==> old(self)@.focused < old(self)@.monitors.len(),
        ensures
            id == old(self)@.command_workspace(window),
            final(self)@ == match old(self)@.moving {
                Some(InteractiveMoveState::Moving(d)) => if window is None || window == Some(
                    d.tile.window.id,
                ) {
                    old(self)@.float_dragged(d, !d.tile.floating)
                } else {
                    old(self)@
                },
                _ => old(self)@,
            },
            old(self)@.whole() ==> final(self)@.whole(),
            old(self)@.whole() && old(self)@.orderly() ==> final(self)@.orderly(),
    {
        proof {
            if self@.whole() {
                if let Some(InteractiveMoveState::Moving(d)) = self@.moving {
                    crate::resting::law_floating_keeps_whole(self@, d, !d.tile.floating);
                }
            }
        }
        let id = self.command_workspace(window);
        if let Some(InteractiveMoveState::Moving(d)) = self.interactive_move {
            let meant = match window {
                None => true,
                Some(w) => d.tile.window.id == w,
            };
            if meant {
                self.float_dragged(d, !d.tile.floating);
            }
        }
        id
    }

    /// Makes a dragged window float or not, and returns `None`; for any other window, or the
    /// focused one, returns the workspace that has to do it.
    pub fn set_window_floating(&mut self, window: Option<WindowId>, floating: bool) -> (id: Option<
        WorkspaceId,
    >)
        requires
            old(self)@.monitors.len() > 0 ==> old(self)@.focused < old(self)@.monitors.len(),
        ensures
            id == old(self)@.command_workspace(window),
            final(self)@ == match old(self)@.moving {
                Some(InteractiveMoveState::Moving(d)) => if (window is None || window == Some(
                    d.tile.window.id,
                )) && d.tile.floating != floating {
                    old(self)@.float_dragged(d, floating)
                } else {
                    old(self)@
                },
                _ => old(self)@,
            },
            old(self)@.whole() ==> final(self)@.whole(),
            old(self)@.whole() && old(self)@.orderly() ==> final(self)@.orderly(),
    {
        proof {
            if self@.whole() {
                if let Some(InteractiveMoveState::Moving(d)) = self@.moving {
                    crate::resting::law_floating_keeps_whole(self@, d, floating);
                }
            }
        }
        let id = self.command_workspace(window);
        if let Some(InteractiveMoveState::Moving(d)) = self.interactive_move {
            let meant = match window {
                None => true,
                Some(w) => d.tile.window.id == w,
            };
            if meant && d.tile.floating != floating {
                self.float_dragged(d, floating);
            }
        }
        id
    }

    /// Makes the dragged window `d` float or not.
    fn float_dragged(&mut self, d: InteractiveMoveData, floating: bool)
        ensures
            final(self)@ == old(self)@.float_dragged(d, floating),
    {
        let tile = Tile { window: d.tile.window, column: d.tile.column, floating };
        self.interactive_move = Some(
            InteractiveMoveState::Moving(
                InteractiveMoveData {
                    tile,
                    output: d.output,
                    workspace_config: d.workspace_config,
                },
            ),
        );
        if floating {
            self.workspaces.lock_all(false);
        }
    }

    /// Whether moving the pointer over window `window` may give it the focus.
    pub fn should_trigger_focus_follows_mouse_on(&self, window: WindowId) -> (b: bool)
        ensures
            b == self@.pointer_may_focus(window),
    {
        if self.is_dragged(window) || self.monitors.len() == 0 {
            return true;
        }
        match self.window_place(window) {
            Some((mon, idx)) => self.monitors[mon].is_in_gesture() || idx == self.active_place(
                mon,
            ).1,
            None => true,
        }
    }

    /// Whether the first workspace that has window `window` belongs to the active activity.
    pub fn is_wl_surface_on_active_activity(&self, window: WindowId) -> (r: Option<bool>)
        ensures
            r == self@.on_active_activity(window),
    {
        match self.home_of(window) {
            Some(id) => Some(self.is_member(self.activities.active, id)),
            None => None,
        }
    }

    /// Gives output `output` the focus, unless the focus `moved` within its workspace. Says
    /// whether it did.
    pub fn focus_window_up_or_output(&mut self, moved: bool, output: OutputId) -> (b: bool)
        ensures
            b == !moved,
            final(self)@ == if moved {
                old(self)@
            } else {
                old(self)@.focus_output(output)
            },
            old(self)@.whole() ==> final(self)@.whole(),
            old(self)@.whole() && old(self)@.orderly() ==> final(self)@.orderly(),
    {
        proof {
            if self@.whole() {
                crate::resting::law_focusing_an_output_keeps_whole(self@, output);
            }
        }
        if moved {
            return false;
        }
        self.focus_output(output);
        true
    }

    /// Moves the focused column to output `output`, unless it `moved` within its workspace. Says
    /// whether it did.
    pub(crate) fn do_move_column_left_or_to_output(&mut self, moved: bool, output: OutputId) -> (b: bool)
        requires
            !moved && old(self)@.monitors.len() > 0 ==> {
                &&& old(self)@.focused < old(self)@.monitors.len()
                &&& old(self)@.monitor_pos(output) is Some
                &&& old(self)@.move_column_to_output(
                    old(self)@.monitor_pos(output).unwrap(),
                    None,
                    true,
                ).fits()
            },
        ensures
            b == !moved,
            final(self)@ == if moved || old(self)@.monitors.len() == 0 {
                old(self)@
            } else {
                old(self)@.move_column_to_output(
                    old(self)@.monitor_pos(output).unwrap(),
                    None,
                    true,
                )
            },
    {
        if moved {
            return false;
        }
        if self.monitors.len() > 0 {
            self.do_move_column_to_output(output, None, true);
        }
        true
    }

    /// Moves the focused window one workspace down, unless it `moved` within its workspace.
    pub(crate) fn do_move_down_or_to_workspace_down(&mut self, moved: bool)
        requires
            !moved && old(self)@.monitors.len() > 0 ==> old(self)@.focused < old(
                self)@.monitors.len() && old(self)@.move_down(true).fits(),
        ensures
            final(self)@ == if moved {
                old(self)@
            } else {
                old(self)@.move_down(true)
            },
    {
        if !moved {
            self.do_move_to_workspace_down(true);
        }
    }

    /// Moves the focused window one workspace up, unless it `moved` within its workspace.
    pub(crate) fn do_move_up_or_to_workspace_up(&mut self, moved: bool)
        requires
            !moved && old(self)@.monitors.len() > 0 ==> old(self)@.focused < old(
                self)@.monitors.len() && old(self)@.move_up(true).fits(),
        ensures
            final(self)@ == if moved {
                old(self)@
            } else {
                old(self)@.move_up(true)
            },
    {
        if !moved {
            self.do_move_to_workspace_up(true);
        }
    }

    /// Activates the workspace below, unless the focus `moved` within its workspace.
    pub(crate) fn do_focus_window_or_workspace_down(&mut self, moved: bool)
        requires
            old(self)@.monitors.len() > 0 ==> old(self)@.focused < old(self)@.monitors.len(),
        ensures
            final(self)@ == if moved {
                old(self)@
            } else {
                old(self)@.switch_down()
            },
    {
        if !moved {
            self.do_switch_workspace_down();
        }
    }

    /// Activates the workspace above, unless the focus `moved` within its workspace.
    pub(crate) fn do_focus_window_or_workspace_up(&mut self, moved: bool)
        requires
            old(self)@.monitors.len() > 0 ==> old(self)@.focused < old(self)@.monitors.len(),
        ensures
            final(self)@ == if moved {
                old(self)@
            } else {
                old(self)@.switch_up()
            },
    {
        if !moved {
            self.do_switch_workspace_up();
        }
    }

    /// Gives output `output` the focus, unless the focus `moved` within its workspace. Says
    /// whether it did.
    pub fn focus_window_down_or_output(&mut self, moved: bool, output: OutputId) -> (b: bool)
        ensures
            b == !moved,
            final(self)@ == if moved {
                old(self)@
            } else {
                old(self)@.focus_output(output)
            },
            old(self)@.whole() ==> final(self)@.whole(),
            old(self)@.whole() && old(self)@.orderly() ==> final(self)@.orderly(),
    {
        proof {
            if self@.whole() {
                crate::resting::law_focusing_an_output_keeps_whole(self@, output);
            }
        }
        self.focus_window_up_or_output(moved, output)
    }

    /// Gives output `output` the focus, unless the focus `moved` within its workspace. Says
    /// whether it did.
    pub fn focus_column_left_or_output(&mut self, moved: bool, output: OutputId) -> (b: bool)
        ensures
            b == !moved,
            final(self)@ == if moved {
                old(self)@
            } else {
                old(self)@.focus_output(output)
            },
            old(self)@.whole() ==> final(self)@.whole(),
            old(self)@.whole() && old(self)@.orderly() ==> final(self)@.orderly(),
    {
        proof {
            if self@.whole() {
                crate::resting::law_focusing_an_output_keeps_whole(self@, output);
            }
        }
        self.focus_window_up_or_output(moved, output)
    }

    /// Gives output `output` the focus, unless the focus `moved` within its workspace. Says
    /// whether it did.
    pub fn focus_column_right_or_output(&mut self, moved: bool, output: OutputId) -> (b: bool)
        ensures
            b == !moved,
            final(self)@ == if moved {
                old(self)@
            } else {
                old(self)@.focus_output(output)
            },
            old(self)@.whole() ==> final(self)@.whole(),
            old(self)@.whole() && old(self)@.orderly() ==> final(self)@.orderly(),
    {
        proof {
            if self@.whole() {
                crate::resting::law_focusing_an_output_keeps_whole(self@, output);
            }
        }
        self.focus_window_up_or_output(moved, output)
    }

    /// Moves the focused column to output `output`, unless it `moved` within its workspace. Says
    /// whether it did.
    pub(crate) fn do_move_column_right_or_to_output(&mut self, moved: bool, output: OutputId) -> (b: bool)
        requires
            !moved && old(self)@.monitors.len() > 0 ==> {
                &&& old(self)@.focused < old(self)@.monitors.len()
                &&& old(self)@.monitor_pos(output) is Some
                &&& old(self)@.move_column_to_output(
                    old(self)@.monitor_pos(output).unwrap(),
                    None,
                    true,
                ).fits()
            },
        ensures
            b == !moved,
            final(self)@ == if moved || old(self)@.monitors.len() == 0 {
                old(self)@
            } else {
                old(self)@.move_column_to_output(
                    old(self)@.monitor_pos(output).unwrap(),
                    None,
                    true,
                )
            },
    {
        self.do_move_column_left_or_to_output(moved, output)
    }

    /// Focuses window `window` where the active activity shows it, without raising it above other
    /// windows that float.
    pub(crate) fn do_activate_window_without_raising(&mut self, window: WindowId)
        ensures
            final(self)@ == old(self)@.activate_window(window),
    {
        self.do_activate_window(window);
    }

    /// Takes the name off the workspace called `name`.
    pub(crate) fn do_unname_workspace(&mut self, name: &str)
        ensures
            final(self)@ == match old(self)@.pool.first(crate::lookup::by_name(name@)) {
                Some(id) => old(self)@.unname(id),
                None => old(self)@,
            },
    {
        if let Some(id) = self.first_by_name(name) {
            self.do_unname_workspace_by_id(id);
        }
    }

    /// Finds window `window`: the output it is dragged over, or the one that its workspace is
    /// routed to, if that is connected.
    pub fn find_window_and_output(&self, window: WindowId) -> (o: Option<Option<Output>>)
        ensures
            o == self@.output_of_window(window),
    {
        if let Some(InteractiveMoveState::Moving(d)) = self.interactive_move {
            if d.tile.window.id == window {
                return Some(Some(d.output));
            }
        }
        match self.home_of(window) {
            Some(id) => match self.workspaces.get(id) {
                Some(w) => match w.output_id {
                    Some(out) => match self.monitor_idx(out) {
                        Some(m) => Some(Some(self.monitors[m].output)),
                        None => Some(None),
                    },
                    None => Some(None),
                },
                None => Some(None),
            },
            None => None,
        }
    }

    /// Whether the overview is open.
    pub fn is_overview_open(&self) -> (b: bool)
        ensures
            b == self@.overview_open,
    {
        self.overview_open
    }
}

} // verus!
