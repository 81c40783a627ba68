//! How the editor's tools follow one another.

use vstd::prelude::*;
use crate::ids::BuildingID;

verus! {

/// A tool that another tool hands over to.
#[derive(Clone, Copy, Debug, PartialEq, Eq, Structural)]
pub enum NextState {
    /// The wizard that edits the scenario.
    ScenarioEditor,
    /// The simulation itself.
    SandboxMode,
    /// The list of the trips from and to a building.
    TripPicker(BuildingID),
}

/// What becomes of a tool after an event.
#[derive(Clone, Copy, Debug, PartialEq, Eq, Structural)]
pub enum Transition {
    /// It stays.
    Keep,
    /// It goes, and the tool below it comes back.
    Pop,
    /// It goes and hands its result to the tool below it.
    PopWithData,
    /// Another tool comes on top of it.
    Push(NextState),
    /// Another tool takes its place.
    Replace(NextState),
}

} // verus!
