//! Commands, and the identity by which the scheduler keeps them apart.

use vstd::prelude::*;
use crate::ids::{AgentID, CarID, IntersectionID, PedestrianID};
use crate::time::Duration;

verus! {

/// What the engine needs to put a new vehicle on the map. The parameters
/// themselves stay with the engine; `request` is its handle for them.
#[derive(Clone, Copy, Debug, PartialEq, Eq, Structural)]
pub struct CreateCar {
    pub vehicle_id: CarID,
    pub request: u64,
}

/// What the engine needs to put a new pedestrian on the map.
#[derive(Clone, Copy, Debug, PartialEq, Eq, Structural)]
pub struct CreatePedestrian {
    pub id: PedestrianID,
    pub request: u64,
}

/// One unit of simulation work.
#[derive(Clone, Copy, Debug, PartialEq, Eq, Structural)]
pub enum Command {
    /// If the flag is set, retry when there is no room to spawn.
    SpawnCar(CreateCar, bool),
    SpawnPed(CreatePedestrian),
    UpdateCar(CarID),
    /// Advances a vehicle's trailing geometry; kept apart from `UpdateCar`.
    UpdateLaggyHead(CarID),
    UpdatePed(PedestrianID),
    UpdateIntersection(IntersectionID),
    CheckForGridlock,
    Savestate(Duration),
}

/// The slot that a command occupies: at most one command per `CommandType`
/// is scheduled at a time.
///
/// The derived order is the order of `precedes`; verified code compares with
/// `is_before`.
#[derive(Clone, Copy, Debug, PartialEq, Eq, Structural, Hash, PartialOrd, Ord)]
pub enum CommandType {
    Car(CarID),
    CarLaggyHead(CarID),
    Ped(PedestrianID),
    Intersection(IntersectionID),
    CheckForGridlock,
    Savestate,
}

impl CommandType {
    /// The position of the identity's kind in the fixed precedence of kinds.
    pub open spec fn rank(self) -> nat {
        match self {
            CommandType::Car(_) => 0,
            CommandType::CarLaggyHead(_) => 1,
            CommandType::Ped(_) => 2,
            CommandType::Intersection(_) => 3,
            CommandType::CheckForGridlock => 4,
            CommandType::Savestate => 5,
        }
    }

    /// The wrapped id; 0 for the two kinds that have a single slot.
    pub open spec fn index(self) -> nat {
        match self {
            CommandType::Car(id) => id.0 as nat,
            CommandType::CarLaggyHead(id) => id.0 as nat,
            CommandType::Ped(id) => id.0 as nat,
            CommandType::Intersection(id) => id.0 as nat,
            CommandType::CheckForGridlock => 0,
            CommandType::Savestate => 0,
        }
    }

    /// The total order on identities: by kind first, then by the wrapped id.
    pub open spec fn precedes(self, other: CommandType) -> bool {
        self.rank() < other.rank() || (self.rank() == other.rank() && self.index()
            < other.index())
    }

    /// Kind and id as a pair of machine integers.
    pub open spec fn slot(self) -> (u8, usize) {
        match self {
            CommandType::Car(id) => (0u8, id.0),
            CommandType::CarLaggyHead(id) => (1u8, id.0),
            CommandType::Ped(id) => (2u8, id.0),
            CommandType::Intersection(id) => (3u8, id.0),
            CommandType::CheckForGridlock => (4u8, 0usize),
            CommandType::Savestate => (5u8, 0usize),
        }
    }

    /// Kind and id as a pair of integers, ordered as the identities are.
    pub fn key(&self) -> (k: (u8, usize))
        ensures
            k == self.slot(),
            k.0 == self.rank(),
            k.1 == self.index(),
    {
        match self {
            CommandType::Car(id) => (0u8, id.0),
            CommandType::CarLaggyHead(id) => (1u8, id.0),
            CommandType::Ped(id) => (2u8, id.0),
            CommandType::Intersection(id) => (3u8, id.0),
            CommandType::CheckForGridlock => (4u8, 0usize),
            CommandType::Savestate => (5u8, 0usize),
        }
    }

    /// Whether `self` comes strictly before `other` in the order of identities.
    pub fn is_before(&self, other: &CommandType) -> (b: bool)
        ensures
            b == self.precedes(*other),
    {
        let a = self.key();
        let c = other.key();
        a.0 < c.0 || (a.0 == c.0 && a.1 < c.1)
    }

    /// Kind and id determine the identity.
    pub proof fn lemma_key_determines(a: CommandType, b: CommandType)
        requires
            a.rank() == b.rank(),
            a.index() == b.index(),
        ensures
            a == b,
    {
    }

    /// Identities are totally ordered: no identity precedes itself, of two
    /// different ones exactly one precedes the other, and what precedes an
    /// identity precedes all that it precedes.
    pub proof fn law_identities_totally_ordered(a: CommandType, b: CommandType, c: CommandType)
        ensures
            !a.precedes(a),
            a.precedes(b) || b.precedes(a) || a == b,
            !(a.precedes(b) && b.precedes(a)),
            a.precedes(b) && b.precedes(c) ==> a.precedes(c),
    {
    }
}

impl Command {
    /// The slot that this command occupies.
    pub open spec fn identity(self) -> CommandType {
        match self {
            Command::SpawnCar(create, _) => CommandType::Car(create.vehicle_id),
            Command::SpawnPed(create) => CommandType::Ped(create.id),
            Command::UpdateCar(id) => CommandType::Car(id),
            Command::UpdateLaggyHead(id) => CommandType::CarLaggyHead(id),
            Command::UpdatePed(id) => CommandType::Ped(id),
            Command::UpdateIntersection(id) => CommandType::Intersection(id),
            Command::CheckForGridlock => CommandType::CheckForGridlock,
            Command::Savestate(_) => CommandType::Savestate,
        }
    }

    /// The command that advances the given agent.
    pub fn update_agent(id: AgentID) -> (cmd: Command)
        ensures
            cmd == match id {
                AgentID::Car(c) => Command::UpdateCar(c),
                AgentID::Pedestrian(p) => Command::UpdatePed(p),
            },
    {
        match id {
            AgentID::Car(c) => Command::UpdateCar(c),
            AgentID::Pedestrian(p) => Command::UpdatePed(p),
        }
    }

    pub fn to_type(&self) -> (t: CommandType)
        ensures
            t == self.identity(),
    {
        match self {
            Command::SpawnCar(create, _) => CommandType::Car(create.vehicle_id),
            Command::SpawnPed(create) => CommandType::Ped(create.id),
            Command::UpdateCar(id) => CommandType::Car(*id),
            Command::UpdateLaggyHead(id) => CommandType::CarLaggyHead(*id),
            Command::UpdatePed(id) => CommandType::Ped(*id),
            Command::UpdateIntersection(id) => CommandType::Intersection(*id),
            Command::CheckForGridlock => CommandType::CheckForGridlock,
            Command::Savestate(_) => CommandType::Savestate,
        }
    }
}

} // verus!
