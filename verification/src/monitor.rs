//! Connected outputs and what is in flight on them.

use vstd::prelude::*;

use crate::ids::{ActivityId, OutputId};
use crate::workspace::Output;

verus! {

/// A switch between workspaces that is under way on a monitor.
///
/// The position it heads for is kept rounded down to a whole workspace.
#[derive(Clone, Copy, Debug, PartialEq, Eq, Structural)]
pub enum WorkspaceSwitch {
    /// An animation towards a workspace.
    Animation {
        /// Position of the workspace it heads for.
        target: i64,
    },
    /// A gesture that the user is making.
    Gesture {
        /// Position the gesture has reached.
        target: i64,
        /// Whether it is part of the way to the next one.
        between: bool,
        /// Whether it is made on a touchpad.
        is_touchpad: bool,
    },
}

/// Which way the strips slide when activities are switched.
#[derive(Clone, Copy, Debug, PartialEq, Eq, Structural)]
pub enum SlideDirection {
    /// The incoming strip comes from the right.
    Left,
    /// The incoming strip comes from the left.
    Right,
}

/// A switch between activities that is under way on a monitor.
#[derive(Clone, Copy, Debug, PartialEq, Eq, Structural)]
pub struct ActivitySwitch {
    /// The activity that is leaving.
    pub from: ActivityId,
    /// Which way the strips slide.
    pub dir: SlideDirection,
}

/// A connected output.
#[derive(Clone, Copy, Debug, PartialEq, Eq, Structural)]
pub struct Monitor {
    /// The output.
    pub output: Output,
    /// Whether views of this output also begin with an empty workspace.
    pub empty_workspace_above_first: bool,
    /// A workspace switch under way.
    pub workspace_switch: Option<WorkspaceSwitch>,
    /// An activity switch under way.
    pub activity_switch: Option<ActivitySwitch>,
    /// Whether the overview is shown.
    pub overview_open: bool,
    /// Whether dragging to an edge scrolls the strip.
    pub dnd_scroll: bool,
}

/// `n` raised by one, as far as it goes.
pub open spec fn raised(n: i64) -> i64 {
    if n < i64::MAX {
        (n + 1) as i64
    } else {
        n
    }
}

/// Whether a workspace switch is an animation.
pub open spec fn is_animation(s: Option<WorkspaceSwitch>) -> bool {
    s matches Some(WorkspaceSwitch::Animation { .. })
}

impl Monitor {
    /// A monitor for a just-connected output.
    pub fn new(output: Output, empty_workspace_above_first: bool, overview_open: bool) -> (m: Monitor)
        ensures
            m == (Monitor {
                output,
                empty_workspace_above_first,
                workspace_switch: None,
                activity_switch: None,
                overview_open,
                dnd_scroll: false,
            }),
    {
        Monitor {
            output,
            empty_workspace_above_first,
            workspace_switch: None,
            activity_switch: None,
            overview_open,
            dnd_scroll: false,
        }
    }

    /// The output's designation by make, model and serial.
    pub fn output_id(&self) -> (id: OutputId)
        ensures
            id == self.output.id,
    {
        self.output.id
    }

    /// The monitor after a workspace was put in at `idx` of the view it shows: a switch that
    /// heads for that position or beyond is carried along.
    pub open spec fn shifted(self, idx: int) -> Monitor {
        match self.workspace_switch {
            Some(WorkspaceSwitch::Animation { target }) if idx <= target => Monitor {
                workspace_switch: Some(WorkspaceSwitch::Animation { target: raised(target) }),
                ..self
            },
            Some(WorkspaceSwitch::Gesture { target, between, is_touchpad }) if idx <= target => Monitor {
                workspace_switch: Some(
                    WorkspaceSwitch::Gesture { target: raised(target), between, is_touchpad },
                ),
                ..self
            },
            _ => self,
        }
    }

    /// Carries a switch that heads for position `idx` or beyond along by one.
    pub fn shift(&mut self, idx: usize)
        ensures
            *final(self) == old(self).shifted(idx as int),
    {
        match self.workspace_switch {
            Some(WorkspaceSwitch::Animation { target }) => {
                if 0 <= target && idx as u64 <= target as u64 {
                    let raised: i64 = if target < i64::MAX {
                        target + 1
                    } else {
                        target
                    };
                    self.workspace_switch = Some(WorkspaceSwitch::Animation { target: raised });
                }
            },
            Some(WorkspaceSwitch::Gesture { target, between, is_touchpad }) => {
                if 0 <= target && idx as u64 <= target as u64 {
                    let raised: i64 = if target < i64::MAX {
                        target + 1
                    } else {
                        target
                    };
                    self.workspace_switch = Some(
                        WorkspaceSwitch::Gesture { target: raised, between, is_touchpad },
                    );
                }
            },
            None => {},
        }
    }

    /// The monitor with no workspace switch under way.
    pub open spec fn settled(self) -> Monitor {
        Monitor { workspace_switch: None, ..self }
    }

    /// The monitor with no workspace animation under way; a gesture goes on.
    pub open spec fn snapped(self) -> Monitor {
        if is_animation(self.workspace_switch) {
            self.settled()
        } else {
            self
        }
    }

    /// Whether a workspace switch under way is an animation.
    pub fn is_animating(&self) -> (b: bool)
        ensures
            b == is_animation(self.workspace_switch),
    {
        match self.workspace_switch {
            Some(WorkspaceSwitch::Animation { target: _ }) => true,
            _ => false,
        }
    }

    /// Whether a workspace switch under way is a gesture.
    pub fn is_in_gesture(&self) -> (b: bool)
        ensures
            b == (self.workspace_switch matches Some(WorkspaceSwitch::Gesture { .. })),
    {
        match self.workspace_switch {
            Some(WorkspaceSwitch::Gesture { target: _, between: _, is_touchpad: _ }) => true,
            _ => false,
        }
    }
}

} // verus!
