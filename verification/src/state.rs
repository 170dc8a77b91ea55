//! The modes of the tool and the states of the editing state machine.

use vstd::prelude::*;

verus! {

/// What the tool is being used for.
#[derive(Debug, Clone, Copy, PartialEq, Eq, Hash, Structural)]
pub enum ToolState {
    FreeRoam,
    Editing,
    Playback,
}

impl Default for ToolState {
    fn default() -> (s: ToolState)
        ensures
            s == ToolState::Editing,
    {
        ToolState::Editing
    }
}

/// Where the editor is between an edit and the replay that follows it.
#[derive(Debug, Clone, Copy, PartialEq, Eq, Hash, Structural)]
pub enum EditingState {
    /// The slot of the current tick may be edited.
    Editing,
    /// The current tick is not the target tick; a replay is about to start.
    Reconciliation,
    /// One tick is being replayed.
    Catchup,
    /// The tick just reached is being checked and its action sent out.
    CatchupChecks,
}

impl Default for EditingState {
    fn default() -> (s: EditingState)
        ensures
            s == EditingState::Editing,
    {
        EditingState::Editing
    }
}

} // verus!
