//! The layout: monitors, the workspace pool, and the activities that arrange it.

use vstd::prelude::*;

use crate::strips::{strip_models, Strip, StripModel};
use crate::activity::{Activities, ActivitiesModel};
use crate::bookmarks::{Bookmarks, BookmarksModel};
use crate::ids::{ActivityId, OutputId, WindowId, WorkspaceId};
use crate::monitor::Monitor;
use crate::pool::{PoolModel, WorkspacePool};
use crate::view::{ViewModel, WorkspaceView};
use crate::workspace::{Output, Tile};

verus! {

/// A window that the user drags with the pointer.
#[derive(Clone, Copy, Debug, PartialEq, Eq, Structural)]
pub struct InteractiveMoveData {
    /// The dragged tile. It is on no workspace.
    pub tile: Tile,
    /// The output under the pointer.
    pub output: Output,
    /// The workspace whose settings the tile still carries.
    pub workspace_config: Option<WorkspaceId>,
}

/// The stages of an interactive move.
#[derive(Clone, Copy, Debug, PartialEq, Eq, Structural)]
pub enum InteractiveMoveState {
    /// The window is grabbed and still in its place.
    Starting {
        /// The window.
        window_id: WindowId,
    },
    /// The window follows the pointer.
    Moving(InteractiveMoveData),
}

/// What a drag hovers over.
#[derive(Clone, Copy, Debug, PartialEq, Eq, Structural)]
pub enum DndHoldTarget {
    /// A window.
    Window(WindowId),
    /// The empty part of a workspace.
    Workspace(WorkspaceId),
}

/// A drag that rests over one target.
#[derive(Clone, Copy, Debug, PartialEq, Eq, Structural)]
pub struct DndHold {
    /// When it came to rest, in milliseconds.
    pub start_time: u64,
    /// What it rests over.
    pub target: DndHoldTarget,
}

/// A drag-and-drop under way.
#[derive(Clone, Copy, Debug, PartialEq, Eq, Structural)]
pub struct DndData {
    /// The output under the pointer.
    pub output: Output,
    /// Where the drag rests, if it does.
    pub hold: Option<DndHold>,
}

/// What shapes the layout as a whole.
#[derive(Clone, Copy, Debug, PartialEq, Eq, Structural)]
pub struct Options {
    /// Whether views begin with an empty workspace, where an output does not say otherwise.
    pub empty_workspace_above_first: bool,
    /// Whether switching activities is animated.
    pub animate_activity_switch: bool,
}

/// The workspace that was shown on an output when it went away.
#[derive(Clone, Copy, Debug, PartialEq, Eq, Structural)]
pub struct Remembered {
    /// The output's connector.
    pub connector: OutputId,
    /// The workspace.
    pub workspace: WorkspaceId,
}

/// How the overview is shown.
#[derive(Clone, Copy, Debug, PartialEq, Eq, Structural)]
pub enum OverviewProgress {
    /// It is opening or closing.
    Animation,
    /// The user is opening or closing it.
    Gesture,
    /// It is there.
    Open,
}

/// Mathematical model of a [`Layout`].
#[verifier::ext_equal]
pub struct LayoutModel {
    pub monitors: Seq<Monitor>,
    pub primary: int,
    pub focused: int,
    pub parked: Seq<WorkspaceId>,
    pub pool: PoolModel,
    pub acts: ActivitiesModel,
    pub remembered: Seq<Remembered>,
    pub strips: Seq<StripModel>,
    pub moving: Option<InteractiveMoveState>,
    pub dnd: Option<DndData>,
    pub overview_open: bool,
    pub progress: Option<OverviewProgress>,
    pub is_active: bool,
    pub options: Options,
    pub bookmarks: BookmarksModel,
}

/// The layout.
#[derive(Debug)]
pub struct Layout {
    /// The connected outputs.
    pub monitors: Vec<Monitor>,
    /// Index of the monitor that takes in the workspaces of disconnected ones.
    pub primary_idx: usize,
    /// Index of the monitor that has the focus.
    pub active_monitor_idx: usize,
    /// Workspaces that wait for an output while none is connected.
    pub disconnected_workspace_ids: Vec<WorkspaceId>,
    /// Every workspace.
    pub workspaces: WorkspacePool,
    /// The activities, each with its views.
    pub activities: Activities,
    /// What was shown on outputs that went away.
    pub last_active_workspace_id: Vec<Remembered>,
    /// What each activity showed on outputs that went away.
    pub strips: Vec<Strip>,
    /// A window move under way.
    pub interactive_move: Option<InteractiveMoveState>,
    /// A drag-and-drop under way.
    pub dnd: Option<DndData>,
    /// Whether the overview is open.
    pub overview_open: bool,
    /// How the overview is shown; none while it is not.
    pub overview_progress: Option<OverviewProgress>,
    /// Whether the layout has the keyboard focus.
    pub is_active: bool,
    /// What shapes the layout as a whole.
    pub options: Options,
    /// The bookmarks.
    pub bookmarks: Bookmarks,
}

impl View for Layout {
    type V = LayoutModel;

    open spec fn view(&self) -> LayoutModel {
        LayoutModel {
            monitors: self.monitors@,
            primary: self.primary_idx as int,
            focused: self.active_monitor_idx as int,
            parked: self.disconnected_workspace_ids@,
            pool: self.workspaces@,
            acts: self.activities@,
            remembered: self.last_active_workspace_id@,
            strips: strip_models(self.strips@),
            moving: self.interactive_move,
            dnd: self.dnd,
            overview_open: self.overview_open,
            progress: self.overview_progress,
            is_active: self.is_active,
            options: self.options,
            bookmarks: self.bookmarks@,
        }
    }
}

impl LayoutModel {
    /// The counters that number workspaces, activities and activations have not run out.
    pub open spec fn fits(self) -> bool {
        &&& self.pool.next <= u64::MAX
        &&& self.acts.next <= u64::MAX
        &&& self.acts.seq <= u64::MAX
    }

    /// No counter of `self` is ahead of the same counter of `later`.
    pub open spec fn before(self, later: LayoutModel) -> bool {
        &&& self.pool.next <= later.pool.next
        &&& self.acts.next <= later.acts.next
        &&& self.acts.seq <= later.acts.seq
    }

    /// Activity `act`'s view of output `out`.
    pub open spec fn view_of(self, act: ActivityId, out: OutputId) -> Option<ViewModel> {
        self.acts.view_of(act, out)
    }

    /// The active activity's view of output `out`.
    pub open spec fn active_view(self, out: OutputId) -> Option<ViewModel> {
        self.acts.view_of(self.acts.active, out)
    }

    /// Activity `act`'s view of output `out` replaced by `v`.
    pub open spec fn with_view(self, act: ActivityId, out: OutputId, v: ViewModel) -> LayoutModel {
        LayoutModel { acts: self.acts.set_view(act, out, v), ..self }
    }

    /// Whether empty workspaces lead the views of output `out`: as the monitor says, or as the
    /// layout says if none is connected there.
    pub open spec fn leading_empty(self, out: OutputId) -> bool {
        match crate::search::find(self.monitors, on_output(out)) {
            Some(i) => self.monitors[i].empty_workspace_above_first,
            None => self.options.empty_workspace_above_first,
        }
    }

    /// Position of the monitor for output `out`.
    pub open spec fn monitor_pos(self, out: OutputId) -> Option<int> {
        crate::search::find(self.monitors, on_output(out))
    }
}

/// The predicate that picks the monitor for output `out`.
pub open spec fn on_output(out: OutputId) -> spec_fn(Monitor) -> bool {
    |m: Monitor| m.output.id == out
}

impl Layout {
    /// Index of the monitor for output `out`.
    pub fn monitor_idx(&self, out: OutputId) -> (pos: Option<usize>)
        ensures
            match pos {
                Some(p) => self@.monitor_pos(out) == Some(p as int) && p < self@.monitors.len()
                    && self@.monitors[p as int].output.id == out,
                None => self@.monitor_pos(out) is None,
            },
    {
        let ghost p = on_output(out);
        let mut i: usize = 0;
        while i < self.monitors.len()
            invariant
                i <= self.monitors@.len(),
                p == on_output(out),
                crate::search::find(self.monitors@, p) == crate::search::find_from(
                    self.monitors@,
                    p,
                    i as int,
                ),
            decreases self.monitors@.len() - i,
        {
            if self.monitors[i].output.id == out {
                return Some(i);
            }
            i = i + 1;
        }
        None
    }

    /// Whether empty workspaces lead the views of output `out`.
    pub fn leads_with_empty(&self, out: OutputId) -> (b: bool)
        ensures
            b == self@.leading_empty(out),
    {
        match self.monitor_idx(out) {
            Some(i) => self.monitors[i].empty_workspace_above_first,
            None => self.options.empty_workspace_above_first,
        }
    }

    /// A copy of activity `act`'s view of output `out`.
    pub fn copy_view(&self, act: ActivityId, out: OutputId) -> (v: Option<WorkspaceView>)
        ensures
            match v {
                Some(v) => self@.view_of(act, out) == Some(v@),
                None => self@.view_of(act, out) is None,
            },
    {
        match self.activities.view_on(act, out) {
            Some(v) => Some(v.duplicate()),
            None => None,
        }
    }

    /// Replaces activity `act`'s view of output `out`.
    pub(crate) fn put_view(&mut self, act: ActivityId, out: OutputId, v: WorkspaceView)
        ensures
            final(self)@ == old(self)@.with_view(act, out, v@),
    {
        self.activities.set_view(act, out, v);
    }
}

} // verus!
