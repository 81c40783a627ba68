//! What the editor's tools share: the object under the cursor, and colors.

use vstd::prelude::*;
use crate::ids::{
    AreaID, BuildingID, BusStopID, CarID, ExtraShapeID, IntersectionID, LaneID, PedestrianID,
    RoadID, TripID, TurnID,
};

verus! {

/// Something on the map that can be selected.
#[derive(Clone, Debug, PartialEq, Eq)]
pub enum ID {
    Road(RoadID),
    Lane(LaneID),
    Intersection(IntersectionID),
    Turn(TurnID),
    Building(BuildingID),
    Car(CarID),
    Pedestrian(PedestrianID),
    PedCrowd(Vec<PedestrianID>),
    ExtraShape(ExtraShapeID),
    BusStop(BusStopID),
    Area(AreaID),
    Trip(TripID),
}

/// A color, as four channels of eight bits.
#[derive(Clone, Copy, Debug, PartialEq, Eq, Structural, Hash)]
pub struct Color {
    pub r: u8,
    pub g: u8,
    pub b: u8,
    pub a: u8,
}

} // verus!
