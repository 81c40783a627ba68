//! Looking through the trips of a scenario, building by building.

use std::collections::BTreeMap;
use vstd::prelude::*;
use vstd::string::StringSliceAdditionalSpecFns;
use crate::game::{NextState, Transition};
use crate::helpers::ID;
use crate::ids::{BuildingID, IntersectionID, LaneID};
use crate::text::{decimal, decimal_text, joined, parse_usize, parsed_usize};
use crate::time::Duration;

verus! {

/// What a spot on a sidewalk is next to.
#[derive(Clone, Copy, Debug, PartialEq, Eq, Structural)]
pub enum SidewalkPOI {
    Building(BuildingID),
    Border(IntersectionID),
    /// A parking spot, a bus stop or a bike rack.
    Other,
}

#[derive(Clone, Copy, Debug, PartialEq, Eq, Structural)]
pub struct SidewalkSpot {
    pub connection: SidewalkPOI,
}

/// Where a vehicle is headed.
#[derive(Clone, Copy, Debug, PartialEq, Eq, Structural)]
pub enum DrivingGoal {
    ParkNear(BuildingID),
    Border(IntersectionID),
}

/// One trip of a scenario: when it departs, where from, where to, and how.
#[derive(Clone, Copy, Debug, PartialEq, Eq, Structural)]
pub enum SpawnTrip {
    CarAppearing { depart: Duration, start: LaneID, goal: DrivingGoal, is_bike: bool },
    UsingBike(Duration, SidewalkSpot, DrivingGoal),
    JustWalking(Duration, SidewalkSpot, SidewalkSpot),
    /// The last field is the number of the bus route.
    UsingTransit(Duration, SidewalkSpot, SidewalkSpot, usize),
}

/// The building, if any, at a spot.
pub open spec fn building_at(spot: SidewalkSpot) -> Option<BuildingID> {
    match spot.connection {
        SidewalkPOI::Building(b) => Some(b),
        _ => None,
    }
}

/// The building, if any, that a vehicle is to park near.
pub open spec fn building_of(goal: DrivingGoal) -> Option<BuildingID> {
    match goal {
        DrivingGoal::ParkNear(b) => Some(b),
        DrivingGoal::Border(_) => None,
    }
}

impl SpawnTrip {
    /// The building that the trip starts from, if it starts from one. A car
    /// that appears on a lane starts from none.
    pub open spec fn origin(self) -> Option<BuildingID> {
        match self {
            SpawnTrip::CarAppearing { .. } => None,
            SpawnTrip::UsingBike(_, spot, _) => building_at(spot),
            SpawnTrip::JustWalking(_, spot, _) => building_at(spot),
            SpawnTrip::UsingTransit(_, spot, _, _) => building_at(spot),
        }
    }

    /// The building that the trip ends at, if it ends at one.
    pub open spec fn destination(self) -> Option<BuildingID> {
        match self {
            SpawnTrip::CarAppearing { goal, .. } => building_of(goal),
            SpawnTrip::UsingBike(_, _, goal) => building_of(goal),
            SpawnTrip::JustWalking(_, _, spot) => building_at(spot),
            SpawnTrip::UsingTransit(_, _, spot, _) => building_at(spot),
        }
    }

    pub fn starts_from(&self) -> (b: Option<BuildingID>)
        ensures
            b == self.origin(),
    {
        match self {
            SpawnTrip::CarAppearing { .. } => None,
            SpawnTrip::UsingBike(_, spot, _)
            | SpawnTrip::JustWalking(_, spot, _)
            | SpawnTrip::UsingTransit(_, spot, _, _) => match spot.connection {
                SidewalkPOI::Building(b) => Some(b),
                _ => None,
            },
        }
    }

    pub fn ends_at(&self) -> (b: Option<BuildingID>)
        ensures
            b == self.destination(),
    {
        match self {
            SpawnTrip::CarAppearing { goal, .. } | SpawnTrip::UsingBike(_, _, goal) => match goal {
                DrivingGoal::ParkNear(b) => Some(*b),
                DrivingGoal::Border(_) => None,
            },
            SpawnTrip::JustWalking(_, _, spot) | SpawnTrip::UsingTransit(_, _, spot, _) => match spot.connection {
                SidewalkPOI::Building(b) => Some(b),
                _ => None,
            },
        }
    }
}

/// Of the first `n` trips, the numbers of those that start from building `b`
/// (with `leaving`) or end there (without), in ascending order.
pub open spec fn trips_at(trips: Seq<SpawnTrip>, b: BuildingID, leaving: bool, n: int) -> Seq<usize>
    decreases n,
{
    if n <= 0 {
        Seq::empty()
    } else {
        let rest = trips_at(trips, b, leaving, n - 1);
        let place = if leaving {
            trips[n - 1].origin()
        } else {
            trips[n - 1].destination()
        };
        if place == Some(b) {
            rest.push((n - 1) as usize)
        } else {
            rest
        }
    }
}

/// Every number in `trips_at` is below `n`, and they ascend.
pub proof fn lemma_trips_at_ascend(trips: Seq<SpawnTrip>, b: BuildingID, leaving: bool, n: int)
    requires
        n <= usize::MAX,
    ensures
        forall|i: int|
            0 <= i < trips_at(trips, b, leaving, n).len() ==> (#[trigger] trips_at(
                trips,
                b,
                leaving,
                n,
            )[i]) < n,
        ascending(trips_at(trips, b, leaving, n)),
    decreases n,
{
    if n > 0 {
        lemma_trips_at_ascend(trips, b, leaving, n - 1);
        let rest = trips_at(trips, b, leaving, n - 1);
        let all = trips_at(trips, b, leaving, n);
        assert forall|i: int, j: int| 0 <= i < j < all.len() implies all[i] < all[j] by {
            assert(all[i] == rest[i]);
            if j < rest.len() {
                assert(all[j] == rest[j]);
            }
        }
    }
}

/// Each number is smaller than the next.
pub open spec fn ascending(s: Seq<usize>) -> bool {
    forall|i: int, j: int| 0 <= i < j < s.len() ==> s[i] < s[j]
}

/// For each building a list of trip numbers.
pub struct MultiMap {
    lists: BTreeMap<usize, Vec<usize>>,
}

impl MultiMap {
    /// The numbers listed for `b`; none if nothing was listed for it.
    pub closed spec fn get_spec(&self, b: BuildingID) -> Seq<usize> {
        if self.lists@.contains_key(b.0) {
            self.lists@[b.0]@
        } else {
            Seq::empty()
        }
    }

    pub fn new() -> (m: MultiMap)
        ensures
            forall|b: BuildingID| (#[trigger] m.get_spec(b)).len() == 0,
    {
        MultiMap { lists: BTreeMap::new() }
    }

    /// Lists `idx` for `b`, after what is listed for it.
    pub fn insert(&mut self, b: BuildingID, idx: usize)
        ensures
            final(self).get_spec(b) == old(self).get_spec(b).push(idx),
            forall|other: BuildingID|
                other != b ==> #[trigger] final(self).get_spec(other) == old(self).get_spec(other),
    {
        broadcast use vstd::std_specs::btree::group_btree_axioms;
        broadcast use vstd::laws_cmp::group_laws_cmp;

        let mut list: Vec<usize> = match self.lists.remove(&b.0) {
            Some(list) => list,
            None => Vec::new(),
        };
        list.push(idx);
        self.lists.insert(b.0, list);
    }

    /// How many numbers are listed for `b`.
    pub fn count(&self, b: BuildingID) -> (n: usize)
        ensures
            n == self.get_spec(b).len(),
    {
        broadcast use vstd::std_specs::btree::group_btree_axioms;
        broadcast use vstd::laws_cmp::group_laws_cmp;

        match self.lists.get(&b.0) {
            Some(list) => list.len(),
            None => 0,
        }
    }

    /// The numbers listed for `b`.
    pub fn get(&self, b: BuildingID) -> (list: Vec<usize>)
        ensures
            list@ == self.get_spec(b),
    {
        broadcast use vstd::std_specs::btree::group_btree_axioms;
        broadcast use vstd::laws_cmp::group_laws_cmp;

        match self.lists.get(&b.0) {
            Some(list) => copy_of(list),
            None => Vec::new(),
        }
    }
}

/// A list with the same numbers.
fn copy_of(list: &Vec<usize>) -> (out: Vec<usize>)
    ensures
        out@ == list@,
{
    let mut out: Vec<usize> = Vec::new();
    let n: usize = list.len();
    let mut i: usize = 0;
    while i < n
        invariant
            n == list@.len(),
            i <= n,
            out@ == list@.take(i as int),
        decreases n - i,
    {
        out.push(list[i]);
        assert(list@.take(i + 1) =~= list@.take(i as int).push(list@[i as int]));
        i += 1;
    }
    assert(list@.take(n as int) =~= list@);
    out
}

/// The numbers that are in `a` or in `b`, in ascending order, each once.
pub fn union(a: &Vec<usize>, b: &Vec<usize>) -> (all: Vec<usize>)
    requires
        ascending(a@),
        ascending(b@),
    ensures
        ascending(all@),
        forall|x: usize| all@.contains(x) <==> a@.contains(x) || b@.contains(x),
{
    let mut all: Vec<usize> = Vec::new();
    let n: usize = a.len();
    let m: usize = b.len();
    let mut i: usize = 0;
    let mut j: usize = 0;
    while i < n || j < m
        invariant
            n == a@.len(),
            m == b@.len(),
            i <= n,
            j <= m,
            ascending(a@),
            ascending(b@),
            ascending(all@),
            forall|k: int|
                0 <= k < all@.len() ==> (i < n ==> (#[trigger] all@[k]) < a@[i as int]) && (j < m
                    ==> all@[k] < b@[j as int]),
            forall|x: usize|
                all@.contains(x) <==> (exists|k: int| 0 <= k < i && a@[k] == x) || (exists|k: int|
                    0 <= k < j && b@[k] == x),
        decreases (n - i) + (m - j),
    {
        let ghost before = all@;
        let take_a: bool = i < n && (j >= m || a[i] <= b[j]);
        let x: usize = if take_a {
            a[i]
        } else {
            b[j]
        };
        all.push(x);
        let ghost i0 = i;
        let ghost j0 = j;
        if i < n && a[i] == x {
            i += 1;
        }
        if j < m && b[j] == x {
            j += 1;
        }
        proof {
            assert(all@[before.len() as int] == x);
            assert forall|y: usize|
                all@.contains(y) <==> (exists|k: int| 0 <= k < i && a@[k] == y) || (exists|k: int|
                    0 <= k < j && b@[k] == y) by {
                if all@.contains(y) {
                    let k = choose|k: int| 0 <= k < all@.len() && all@[k] == y;
                    if k < before.len() {
                        assert(before[k] == y);
                        assert(before.contains(y));
                    } else {
                        if take_a {
                            assert(a@[i0 as int] == y);
                        } else {
                            assert(b@[j0 as int] == y);
                        }
                    }
                }
                if exists|k: int| 0 <= k < i && a@[k] == y {
                    let k = choose|k: int| 0 <= k < i && a@[k] == y;
                    if k < i0 {
                        assert(before.contains(y));
                        let w = choose|w: int| 0 <= w < before.len() && before[w] == y;
                        assert(all@[w] == y);
                    } else {
                        assert(all@[before.len() as int] == y);
                    }
                }
                if exists|k: int| 0 <= k < j && b@[k] == y {
                    let k = choose|k: int| 0 <= k < j && b@[k] == y;
                    if k < j0 {
                        assert(before.contains(y));
                        let w = choose|w: int| 0 <= w < before.len() && before[w] == y;
                        assert(all@[w] == y);
                    } else {
                        assert(all@[before.len() as int] == y);
                    }
                }
            }
        }
    }
    proof {
        assert forall|x: usize| all@.contains(x) <==> a@.contains(x) || b@.contains(x) by {
            if a@.contains(x) {
                let k = choose|k: int| 0 <= k < a@.len() && a@[k] == x;
                assert(0 <= k < i && a@[k] == x);
            }
            if b@.contains(x) {
                let k = choose|k: int| 0 <= k < b@.len() && b@[k] == x;
                assert(0 <= k < j && b@[k] == x);
            }
        }
    }
    all
}

/// A choice from the tool's menu.
#[derive(Clone, Copy, Debug, PartialEq, Eq, Structural)]
pub enum MenuAction {
    Quit,
    Save,
    Edit,
    Instantiate,
}

/// What the tool's caller is to do after an event.
#[derive(Clone, Copy, Debug, PartialEq, Eq, Structural)]
pub struct Outcome {
    /// Save the scenario first.
    pub save: bool,
    pub transition: Transition,
}

/// What to show about the selection.
#[derive(Clone, Copy, Debug, PartialEq, Eq, Structural)]
pub enum Osd {
    /// The building, with the number of trips that start from it and the
    /// number that end at it.
    Building { id: BuildingID, from: usize, to: usize },
    /// Whatever is shown of a selection elsewhere.
    Default,
}

/// The building that is selected, if one is.
pub open spec fn selected_building(selection: Option<ID>) -> Option<BuildingID> {
    match selection {
        Some(ID::Building(b)) => Some(b),
        _ => None,
    }
}

/// The trips of a scenario, listed by the buildings they start from and end
/// at.
pub struct ScenarioManager {
    trips: Vec<SpawnTrip>,
    trips_from_bldg: MultiMap,
    trips_to_bldg: MultiMap,
}

impl ScenarioManager {
    pub closed spec fn trips(&self) -> Seq<SpawnTrip> {
        self.trips@
    }

    pub closed spec fn wf(&self) -> bool {
        &&& forall|b: BuildingID| #[trigger]
            self.trips_from_bldg.get_spec(b) == trips_at(self.trips@, b, true, self.trips@.len() as int)
        &&& forall|b: BuildingID| #[trigger]
            self.trips_to_bldg.get_spec(b) == trips_at(self.trips@, b, false, self.trips@.len() as int)
    }

    /// The numbers of the trips that start from `b`, ascending.
    pub open spec fn from(&self, b: BuildingID) -> Seq<usize> {
        trips_at(self.trips(), b, true, self.trips().len() as int)
    }

    /// The numbers of the trips that end at `b`, ascending.
    pub open spec fn to(&self, b: BuildingID) -> Seq<usize> {
        trips_at(self.trips(), b, false, self.trips().len() as int)
    }

    /// Whether the trips of `b` can be browsed: whether it has any.
    pub open spec fn has_trips(&self, b: BuildingID) -> bool {
        self.from(b).len() > 0 || self.to(b).len() > 0
    }

    pub fn new(trips: Vec<SpawnTrip>) -> (m: ScenarioManager)
        ensures
            m.wf(),
            m.trips() == trips@,
    {
        let mut trips_from_bldg = MultiMap::new();
        let mut trips_to_bldg = MultiMap::new();
        let n: usize = trips.len();
        let mut idx: usize = 0;
        while idx < n
            invariant
                n == trips@.len(),
                idx <= n,
                forall|b: BuildingID| #[trigger]
                    trips_from_bldg.get_spec(b) == trips_at(trips@, b, true, idx as int),
                forall|b: BuildingID| #[trigger]
                    trips_to_bldg.get_spec(b) == trips_at(trips@, b, false, idx as int),
            decreases n - idx,
        {
            let trip = &trips[idx];
            let ghost from_before = trips_from_bldg;
            let ghost to_before = trips_to_bldg;
            match trip.starts_from() {
                Some(b) => {
                    trips_from_bldg.insert(b, idx);
                },
                None => {},
            }
            match trip.ends_at() {
                Some(b) => {
                    trips_to_bldg.insert(b, idx);
                },
                None => {},
            }
            proof {
                assert forall|b: BuildingID| #[trigger]
                    trips_from_bldg.get_spec(b) == trips_at(trips@, b, true, idx + 1) by {
                    assert(from_before.get_spec(b) == trips_at(trips@, b, true, idx as int));
                }
                assert forall|b: BuildingID| #[trigger]
                    trips_to_bldg.get_spec(b) == trips_at(trips@, b, false, idx + 1) by {
                    assert(to_before.get_spec(b) == trips_at(trips@, b, false, idx as int));
                }
            }
            idx += 1;
        }
        ScenarioManager { trips, trips_from_bldg, trips_to_bldg }
    }

    /// The trip with the given number.
    pub fn trip(&self, idx: usize) -> (t: SpawnTrip)
        requires
            idx < self.trips().len(),
        ensures
            t == self.trips()[idx as int],
    {
        self.trips[idx]
    }

    pub fn num_trips(&self) -> (n: usize)
        ensures
            n == self.trips().len(),
    {
        self.trips.len()
    }

    /// The building whose trips the tool offers to browse: the selected one,
    /// if it has trips.
    pub fn browsable(&self, selection: &Option<ID>) -> (r: Option<BuildingID>)
        requires
            self.wf(),
        ensures
            r == (match selected_building(*selection) {
                Some(b) => if self.has_trips(b) {
                    Some(b)
                } else {
                    None
                },
                None => None,
            }),
    {
        match selection {
            Some(ID::Building(b)) => {
                if self.trips_from_bldg.count(*b) > 0 || self.trips_to_bldg.count(*b) > 0 {
                    Some(*b)
                } else {
                    None
                }
            },
            _ => None,
        }
    }

    /// The building about which the user is asked whether to browse its
    /// trips: none after a choice from the menu that ends the event, and
    /// otherwise the one that `browsable` names.
    pub fn browse_question(&self, action: Option<MenuAction>, selection: &Option<ID>) -> (r: Option<
        BuildingID,
    >)
        requires
            self.wf(),
        ensures
            r == (match action {
                Some(MenuAction::Quit) | Some(MenuAction::Edit) | Some(MenuAction::Instantiate) => None,
                _ => match selected_building(*selection) {
                    Some(b) => if self.has_trips(b) {
                        Some(b)
                    } else {
                        None
                    },
                    None => None,
                },
            }),
    {
        match action {
            Some(MenuAction::Quit) | Some(MenuAction::Edit) | Some(MenuAction::Instantiate) => None,
            _ => self.browsable(selection),
        }
    }

    /// Takes one event: the choice from the menu, if one was made, the
    /// selection, and whether the user asked to browse trips (a question that
    /// is put only where `browse_question` names a building).
    ///
    /// Quitting, editing and instantiating end the event. Saving does not:
    /// after it, as after no choice at all, the trips of the selected
    /// building are browsed if that was asked for.
    pub fn event(
        &self,
        action: Option<MenuAction>,
        selection: &Option<ID>,
        browse_requested: bool,
    ) -> (out: Outcome)
        requires
            self.wf(),
        ensures
            out.save == (action == Some(MenuAction::Save)),
            out.transition == (match action {
                Some(MenuAction::Quit) => Transition::Pop,
                Some(MenuAction::Edit) => Transition::Push(NextState::ScenarioEditor),
                Some(MenuAction::Instantiate) => Transition::Replace(NextState::SandboxMode),
                _ => match selected_building(*selection) {
                    Some(b) => if self.has_trips(b) && browse_requested {
                        Transition::Push(NextState::TripPicker(b))
                    } else {
                        Transition::Keep
                    },
                    None => Transition::Keep,
                },
            }),
    {
        let mut save = false;
        match action {
            Some(MenuAction::Quit) => {
                return Outcome { save: false, transition: Transition::Pop };
            },
            Some(MenuAction::Save) => {
                save = true;
            },
            Some(MenuAction::Edit) => {
                return Outcome {
                    save: false,
                    transition: Transition::Push(NextState::ScenarioEditor),
                };
            },
            Some(MenuAction::Instantiate) => {
                return Outcome {
                    save: false,
                    transition: Transition::Replace(NextState::SandboxMode),
                };
            },
            None => {},
        }
        match self.browsable(selection) {
            Some(b) => {
                if browse_requested {
                    return Outcome { save, transition: Transition::Push(NextState::TripPicker(b)) };
                }
            },
            None => {},
        }
        Outcome { save, transition: Transition::Keep }
    }

    /// The numbers of the trips that start from `b` or end at it, ascending,
    /// each once.
    pub fn trips_of(&self, b: BuildingID) -> (all: Vec<usize>)
        requires
            self.wf(),
        ensures
            ascending(all@),
            forall|x: usize| all@.contains(x) <==> self.from(b).contains(x) || self.to(b).contains(x),
    {
        let from = self.trips_from_bldg.get(b);
        let to = self.trips_to_bldg.get(b);
        let n: usize = self.trips.len();
        proof {
            lemma_trips_at_ascend(self.trips@, b, true, n as int);
            lemma_trips_at_ascend(self.trips@, b, false, n as int);
        }
        union(&from, &to)
    }

    /// What to show about the selection.
    pub fn draw(&self, selection: &Option<ID>) -> (osd: Osd)
        requires
            self.wf(),
        ensures
            osd == (match selected_building(*selection) {
                Some(b) => Osd::Building {
                    id: b,
                    from: self.from(b).len() as usize,
                    to: self.to(b).len() as usize,
                },
                None => Osd::Default,
            }),
    {
        match selection {
            Some(ID::Building(b)) => Osd::Building {
                id: *b,
                from: self.trips_from_bldg.count(*b),
                to: self.trips_to_bldg.count(*b),
            },
            _ => Osd::Default,
        }
    }
}

/// What becomes of the scenario editor after an event: it hands the edited
/// scenario back when the edit is finished, goes when the user gave up, and
/// stays otherwise.
pub fn editor_event(finished: bool, aborted: bool) -> (t: Transition)
    ensures
        t == (if finished {
            Transition::PopWithData
        } else if aborted {
            Transition::Pop
        } else {
            Transition::Keep
        }),
{
    if finished {
        Transition::PopWithData
    } else if aborted {
        Transition::Pop
    } else {
        Transition::Keep
    }
}

/// Reads the number of an intersection, as the user typed it.
pub fn parse_intersection(line: &str) -> (r: Option<IntersectionID>)
    ensures
        r == (match parsed_usize(line.spec_bytes()) {
            Some(n) => Some(IntersectionID(n)),
            None => None,
        }),
{
    match parse_usize(line) {
        Some(n) => Some(IntersectionID(n)),
        None => None,
    }
}

/// The words for a building in a trip's description: "HERE" for the building
/// that the description is made for.
pub open spec fn building_text(b: BuildingID, home: BuildingID) -> Seq<char> {
    if b == home {
        "HERE"@
    } else {
        "Building #"@ + decimal_text(b.0 as nat)
    }
}

pub open spec fn border_text(i: IntersectionID) -> Seq<char> {
    "Intersection #"@ + decimal_text(i.0 as nat)
}

pub open spec fn goal_text(goal: DrivingGoal, home: BuildingID) -> Seq<char> {
    match goal {
        DrivingGoal::ParkNear(b) => building_text(b, home),
        DrivingGoal::Border(i) => border_text(i),
    }
}

pub open spec fn spot_text(spot: SidewalkSpot, home: BuildingID) -> Seq<char> {
    match spot.connection {
        SidewalkPOI::Building(b) => building_text(b, home),
        SidewalkPOI::Border(i) => border_text(i),
        SidewalkPOI::Other => "Other"@,
    }
}

/// A trip in words, as seen from the building `home`.
pub open spec fn trip_text(trip: SpawnTrip, home: BuildingID) -> Seq<char> {
    match trip {
        SpawnTrip::CarAppearing { depart, start, goal, is_bike } => decimal_text(depart.ticks())
            + ": "@ + (if is_bike {
            "bike"@
        } else {
            "car"@
        }) + " appears at Lane #"@ + decimal_text(start.0 as nat) + ", goes to "@ + goal_text(
            goal,
            home,
        ),
        SpawnTrip::UsingBike(depart, start, goal) => decimal_text(depart.ticks())
            + ": bike from "@ + spot_text(start, home) + " to "@ + goal_text(goal, home),
        SpawnTrip::JustWalking(depart, start, goal) => decimal_text(depart.ticks())
            + ": walk from "@ + spot_text(start, home) + " to "@ + spot_text(goal, home),
        SpawnTrip::UsingTransit(depart, start, goal, route) => decimal_text(depart.ticks())
            + ": bus from "@ + spot_text(start, home) + " to "@ + spot_text(goal, home)
            + " using BusRoute #"@ + decimal_text(route as nat),
    }
}

fn numbered(prefix: &str, n: usize) -> (s: String)
    ensures
        s@ == prefix@ + decimal_text(n as nat),
{
    joined(prefix, decimal(n as u128).as_str())
}

fn building_words(b: BuildingID, home: BuildingID) -> (s: String)
    ensures
        s@ == building_text(b, home),
{
    if b == home {
        "HERE".to_string()
    } else {
        numbered("Building #", b.0)
    }
}

fn goal_words(goal: DrivingGoal, home: BuildingID) -> (s: String)
    ensures
        s@ == goal_text(goal, home),
{
    match goal {
        DrivingGoal::ParkNear(b) => building_words(b, home),
        DrivingGoal::Border(i) => numbered("Intersection #", i.0),
    }
}

fn spot_words(spot: SidewalkSpot, home: BuildingID) -> (s: String)
    ensures
        s@ == spot_text(spot, home),
{
    match spot.connection {
        SidewalkPOI::Building(b) => building_words(b, home),
        SidewalkPOI::Border(i) => numbered("Intersection #", i.0),
        SidewalkPOI::Other => "Other".to_string(),
    }
}

/// Describes a trip for the list of trips of the building `home`.
pub fn describe(trip: &SpawnTrip, home: BuildingID) -> (s: String)
    ensures
        s@ == trip_text(*trip, home),
{
    match trip {
        SpawnTrip::CarAppearing { depart, start, goal, is_bike } => {
            let noun = if *is_bike {
                "bike"
            } else {
                "car"
            };
            let s = decimal(depart.to_ticks() as u128);
            let s = joined(s.as_str(), ": ");
            let s = joined(s.as_str(), noun);
            let s = joined(s.as_str(), numbered(" appears at Lane #", start.0).as_str());
            let s = joined(s.as_str(), ", goes to ");
            joined(s.as_str(), goal_words(*goal, home).as_str())
        },
        SpawnTrip::UsingBike(depart, start, goal) => {
            let s = decimal(depart.to_ticks() as u128);
            let s = joined(s.as_str(), ": bike from ");
            let s = joined(s.as_str(), spot_words(*start, home).as_str());
            let s = joined(s.as_str(), " to ");
            joined(s.as_str(), goal_words(*goal, home).as_str())
        },
        SpawnTrip::JustWalking(depart, start, goal) => {
            let s = decimal(depart.to_ticks() as u128);
            let s = joined(s.as_str(), ": walk from ");
            let s = joined(s.as_str(), spot_words(*start, home).as_str());
            let s = joined(s.as_str(), " to ");
            joined(s.as_str(), spot_words(*goal, home).as_str())
        },
        SpawnTrip::UsingTransit(depart, start, goal, route) => {
            let s = decimal(depart.to_ticks() as u128);
            let s = joined(s.as_str(), ": bus from ");
            let s = joined(s.as_str(), spot_words(*start, home).as_str());
            let s = joined(s.as_str(), " to ");
            let s = joined(s.as_str(), spot_words(*goal, home).as_str());
            joined(s.as_str(), numbered(" using BusRoute #", *route).as_str())
        },
    }
}

} // verus!
