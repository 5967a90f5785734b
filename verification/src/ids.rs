//! Identifiers. Each is a plain number wrapped in its own type.

use vstd::prelude::*;

verus! {

/// Identifies a workspace for its whole life; never reused.
#[derive(Clone, Copy, Debug, PartialEq, Eq, Structural)]
pub struct WorkspaceId(pub u64);

/// Identifies an activity for its whole life; never reused.
#[derive(Clone, Copy, Debug, PartialEq, Eq, Structural)]
pub struct ActivityId(pub u64);

/// Identifies a window.
#[derive(Clone, Copy, Debug, PartialEq, Eq, Structural)]
pub struct WindowId(pub u64);

/// Designates an output, either by its make, model and serial or by its connector.
///
/// Designations are interned by the caller: equal numbers mean equal strings. Zero stands for
/// the empty designation, which no connected output has.
#[derive(Clone, Copy, Debug, PartialEq, Eq, Structural)]
pub struct OutputId(pub u64);

impl WorkspaceId {
    /// The raw number.
    pub fn get(self) -> (n: u64)
        ensures
            n == self.0,
    {
        self.0
    }
}

impl ActivityId {
    /// The raw number.
    pub fn get(self) -> (n: u64)
        ensures
            n == self.0,
    {
        self.0
    }
}

} // verus!
