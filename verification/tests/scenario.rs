use sim_scheduler::game::{NextState, Transition};
use sim_scheduler::helpers::ID;
use sim_scheduler::ids::{BuildingID, IntersectionID, LaneID};
use sim_scheduler::mission::scenario::{
    describe, editor_event, parse_intersection, union, DrivingGoal, MenuAction, MultiMap, Osd, Outcome,
    ScenarioManager, SidewalkPOI, SidewalkSpot, SpawnTrip,
};
use sim_scheduler::time::Duration;

fn at(b: usize) -> SidewalkSpot {
    SidewalkSpot {
        connection: SidewalkPOI::Building(BuildingID(b)),
    }
}

fn border(i: usize) -> SidewalkSpot {
    SidewalkSpot {
        connection: SidewalkPOI::Border(IntersectionID(i)),
    }
}

fn t(ticks: u64) -> Duration {
    Duration::from_ticks(ticks)
}

fn trips() -> Vec<SpawnTrip> {
    vec![
        // 0: from nowhere to building 1
        SpawnTrip::CarAppearing {
            depart: t(5),
            start: LaneID(8),
            goal: DrivingGoal::ParkNear(BuildingID(1)),
            is_bike: false,
        },
        // 1: from building 1 to a border
        SpawnTrip::UsingBike(t(6), at(1), DrivingGoal::Border(IntersectionID(4))),
        // 2: from building 2 to building 1
        SpawnTrip::JustWalking(t(7), at(2), at(1)),
        // 3: from building 1 to building 1
        SpawnTrip::UsingTransit(t(8), at(1), at(1), 12),
        // 4: from a border to elsewhere
        SpawnTrip::JustWalking(
            t(9),
            border(3),
            SidewalkSpot {
                connection: SidewalkPOI::Other,
            },
        ),
    ]
}

#[test]
fn trips_start_and_end() {
    let all = trips();
    assert_eq!(all[0].starts_from(), None);
    assert_eq!(all[0].ends_at(), Some(BuildingID(1)));
    assert_eq!(all[1].starts_from(), Some(BuildingID(1)));
    assert_eq!(all[1].ends_at(), None);
    assert_eq!(all[2].starts_from(), Some(BuildingID(2)));
    assert_eq!(all[2].ends_at(), Some(BuildingID(1)));
    assert_eq!(all[3].starts_from(), Some(BuildingID(1)));
    assert_eq!(all[3].ends_at(), Some(BuildingID(1)));
    assert_eq!(all[4].starts_from(), None);
    assert_eq!(all[4].ends_at(), None);
}

#[test]
fn multimap_lists_in_order() {
    let mut m = MultiMap::new();
    assert_eq!(m.count(BuildingID(1)), 0);
    assert_eq!(m.get(BuildingID(1)), Vec::<usize>::new());
    m.insert(BuildingID(1), 4);
    m.insert(BuildingID(2), 5);
    m.insert(BuildingID(1), 9);
    assert_eq!(m.get(BuildingID(1)), vec![4, 9]);
    assert_eq!(m.get(BuildingID(2)), vec![5]);
    assert_eq!(m.count(BuildingID(1)), 2);
    assert_eq!(m.count(BuildingID(3)), 0);
}

#[test]
fn union_merges_without_repeats() {
    assert_eq!(union(&vec![], &vec![]), Vec::<usize>::new());
    assert_eq!(union(&vec![1, 3], &vec![]), vec![1, 3]);
    assert_eq!(union(&vec![], &vec![2]), vec![2]);
    assert_eq!(union(&vec![1, 3, 5], &vec![0, 3, 4, 5, 9]), vec![0, 1, 3, 4, 5, 9]);
}

#[test]
fn manager_indexes_trips_by_building() {
    let m = ScenarioManager::new(trips());
    assert_eq!(m.num_trips(), 5);
    assert_eq!(m.trip(2), trips()[2]);
    assert_eq!(m.trips_of(BuildingID(1)), vec![0, 1, 2, 3]);
    assert_eq!(m.trips_of(BuildingID(2)), vec![2]);
    assert_eq!(m.trips_of(BuildingID(3)), Vec::<usize>::new());
    assert_eq!(
        m.draw(&Some(ID::Building(BuildingID(1)))),
        Osd::Building {
            id: BuildingID(1),
            from: 2,
            to: 3
        }
    );
    assert_eq!(
        m.draw(&Some(ID::Building(BuildingID(7)))),
        Osd::Building {
            id: BuildingID(7),
            from: 0,
            to: 0
        }
    );
    assert_eq!(m.draw(&Some(ID::Lane(LaneID(1)))), Osd::Default);
    assert_eq!(m.draw(&None), Osd::Default);
    assert_eq!(
        m.browsable(&Some(ID::Building(BuildingID(2)))),
        Some(BuildingID(2))
    );
    assert_eq!(m.browsable(&Some(ID::Building(BuildingID(7)))), None);
    assert_eq!(m.browsable(&None), None);
}

#[test]
fn manager_events() {
    let m = ScenarioManager::new(trips());
    let b1 = Some(ID::Building(BuildingID(1)));
    let keep = Outcome {
        save: false,
        transition: Transition::Keep,
    };
    assert_eq!(m.event(None, &None, false), keep);
    assert_eq!(m.event(None, &b1, false), keep);
    assert_eq!(m.event(None, &Some(ID::Building(BuildingID(9))), true), keep);
    assert_eq!(
        m.event(None, &b1, true),
        Outcome {
            save: false,
            transition: Transition::Push(NextState::TripPicker(BuildingID(1)))
        }
    );
    assert_eq!(
        m.event(Some(MenuAction::Quit), &b1, true),
        Outcome {
            save: false,
            transition: Transition::Pop
        }
    );
    // Saving does not end the event.
    assert_eq!(
        m.event(Some(MenuAction::Save), &b1, true),
        Outcome {
            save: true,
            transition: Transition::Push(NextState::TripPicker(BuildingID(1)))
        }
    );
    assert_eq!(
        m.event(Some(MenuAction::Save), &None, true),
        Outcome {
            save: true,
            transition: Transition::Keep
        }
    );
    assert_eq!(
        m.event(Some(MenuAction::Edit), &b1, true),
        Outcome {
            save: false,
            transition: Transition::Push(NextState::ScenarioEditor)
        }
    );
    assert_eq!(
        m.event(Some(MenuAction::Instantiate), &b1, true),
        Outcome {
            save: false,
            transition: Transition::Replace(NextState::SandboxMode)
        }
    );
}

#[test]
fn browsing_is_asked_about_only_while_the_event_goes_on() {
    let m = ScenarioManager::new(trips());
    let b1 = Some(ID::Building(BuildingID(1)));
    assert_eq!(m.browse_question(None, &b1), Some(BuildingID(1)));
    assert_eq!(
        m.browse_question(Some(MenuAction::Save), &b1),
        Some(BuildingID(1))
    );
    assert_eq!(m.browse_question(Some(MenuAction::Quit), &b1), None);
    assert_eq!(m.browse_question(Some(MenuAction::Edit), &b1), None);
    assert_eq!(m.browse_question(Some(MenuAction::Instantiate), &b1), None);
    assert_eq!(m.browse_question(None, &None), None);
    assert_eq!(
        m.browse_question(None, &Some(ID::Building(BuildingID(9)))),
        None
    );
}

#[test]
fn editor_events() {
    assert_eq!(editor_event(true, false), Transition::PopWithData);
    assert_eq!(editor_event(true, true), Transition::PopWithData);
    assert_eq!(editor_event(false, true), Transition::Pop);
    assert_eq!(editor_event(false, false), Transition::Keep);
}

#[test]
fn trips_in_words() {
    let all = trips();
    let home = BuildingID(1);
    assert_eq!(
        describe(&all[0], home),
        "5: car appears at Lane #8, goes to HERE"
    );
    assert_eq!(
        describe(&all[0], BuildingID(2)),
        "5: car appears at Lane #8, goes to Building #1"
    );
    assert_eq!(
        describe(&all[1], home),
        "6: bike from HERE to Intersection #4"
    );
    assert_eq!(describe(&all[2], home), "7: walk from Building #2 to HERE");
    assert_eq!(
        describe(&all[3], home),
        "8: bus from HERE to HERE using BusRoute #12"
    );
    assert_eq!(
        describe(&all[4], home),
        "9: walk from Intersection #3 to Other"
    );
    let bike = SpawnTrip::CarAppearing {
        depart: t(120),
        start: LaneID(0),
        goal: DrivingGoal::Border(IntersectionID(10)),
        is_bike: true,
    };
    assert_eq!(
        describe(&bike, home),
        "120: bike appears at Lane #0, goes to Intersection #10"
    );
}

#[test]
fn intersections_are_read_as_decimal_numbers() {
    assert_eq!(parse_intersection("0"), Some(IntersectionID(0)));
    assert_eq!(parse_intersection("42"), Some(IntersectionID(42)));
    assert_eq!(parse_intersection("+42"), Some(IntersectionID(42)));
    assert_eq!(parse_intersection("007"), Some(IntersectionID(7)));
    assert_eq!(
        parse_intersection(&usize::MAX.to_string()),
        Some(IntersectionID(usize::MAX))
    );
    for bad in [
        "", "+", "-1", " 1", "1 ", "1_000", "0x10", "12a", "++1", "1+", "٣", "1.0",
        "18446744073709551616", "99999999999999999999999",
    ] {
        assert_eq!(parse_intersection(bad), None, "{:?}", bad);
        assert_eq!(
            parse_intersection(bad),
            usize::from_str_radix(bad, 10).ok().map(IntersectionID)
        );
    }
    for good in ["0", "+0", "000", "18446744073709551615", "+18446744073709551615", "123456"] {
        assert_eq!(
            parse_intersection(good),
            usize::from_str_radix(good, 10).ok().map(IntersectionID)
        );
        assert!(parse_intersection(good).is_some());
    }
}
