use sim_scheduler::debug::colorer::{position, Layer, RoadColorerBuilder};
use sim_scheduler::debug::floodfill::{
    find_reachable_from, largest, largest_component, members, Floodfiller, Source,
};
use sim_scheduler::debug::objects::{KeyQuery, ObjectDebugger};
use sim_scheduler::game::Transition;
use sim_scheduler::helpers::{Color, ID};
use sim_scheduler::ids::{BuildingID, IntersectionID, LaneID, RoadID, TurnID};
use sim_scheduler::network::{Lane, RoadNetwork, Turn};

const GREEN: Color = Color {
    r: 0,
    g: 255,
    b: 0,
    a: 255,
};
const RED: Color = Color {
    r: 255,
    g: 0,
    b: 0,
    a: 255,
};
const BLUE: Color = Color {
    r: 0,
    g: 0,
    b: 255,
    a: 255,
};

fn turn(src: usize, dst: usize, allowed: bool, between_sidewalks: bool) -> Turn {
    Turn {
        id: TurnID {
            parent: IntersectionID(0),
            src: LaneID(src),
            dst: LaneID(dst),
        },
        allowed,
        between_sidewalks,
    }
}

fn lane(id: usize, parent: usize, driving: bool, turns: Vec<Turn>) -> Lane {
    Lane {
        id: LaneID(id),
        parent: RoadID(parent),
        driving,
        turns,
    }
}

// 0 -> 1 -> 2 -> 0 is a cycle; 2 -> 3 leads out of it; 3 -> 4 is forbidden;
// 5 is a sidewalk with a turn to sidewalk 6.
fn sample() -> RoadNetwork {
    RoadNetwork::new(
        vec![
            lane(0, 0, true, vec![turn(0, 1, true, false)]),
            lane(1, 0, true, vec![turn(1, 2, true, false)]),
            lane(
                2,
                1,
                true,
                vec![turn(2, 0, true, false), turn(2, 3, true, false)],
            ),
            lane(3, 1, true, vec![turn(3, 4, false, false)]),
            lane(4, 2, true, vec![]),
            lane(5, 2, false, vec![turn(5, 6, true, true)]),
            lane(6, 3, false, vec![]),
        ],
        4,
    )
    .unwrap()
}

#[test]
fn network_checks_its_lanes() {
    assert!(RoadNetwork::new(vec![], 0).is_some());
    // Stored under the wrong number.
    assert!(RoadNetwork::new(vec![lane(1, 0, true, vec![])], 1).is_none());
    // On a road that is not there.
    assert!(RoadNetwork::new(vec![lane(0, 1, true, vec![])], 1).is_none());
    // A turn to a lane that is not there.
    assert!(RoadNetwork::new(vec![lane(0, 0, true, vec![turn(0, 1, true, false)])], 1).is_none());
    // A turn that leaves another lane.
    assert!(RoadNetwork::new(
        vec![
            lane(0, 0, true, vec![turn(1, 0, true, false)]),
            lane(1, 0, true, vec![])
        ],
        1
    )
    .is_none());
    let net = sample();
    assert_eq!(net.num_lanes(), 7);
    assert_eq!(net.road_count(), 4);
    assert_eq!(net.lane(LaneID(2)).parent, RoadID(1));
}

#[test]
fn flood_fill_follows_allowed_turns() {
    let net = sample();
    assert_eq!(
        find_reachable_from(LaneID(0), &net),
        vec![true, true, true, true, false, false, false]
    );
    assert_eq!(
        find_reachable_from(LaneID(3), &net),
        vec![false, false, false, true, false, false, false]
    );
    assert_eq!(
        find_reachable_from(LaneID(5), &net),
        vec![false, false, false, false, false, true, true]
    );
    assert_eq!(
        find_reachable_from(LaneID(4), &net),
        vec![false, false, false, false, true, false, false]
    );
}

#[test]
fn largest_part_is_the_last_of_the_largest() {
    assert_eq!(largest(&vec![]), None);
    assert_eq!(largest(&vec![vec![1]]), Some(0));
    assert_eq!(largest(&vec![vec![1], vec![2, 3], vec![4]]), Some(1));
    assert_eq!(
        largest(&vec![vec![1, 5], vec![2, 3], vec![4], vec![7, 8]]),
        Some(3)
    );
}

#[test]
fn members_marks_the_listed_lanes() {
    assert_eq!(
        members(&vec![3, 0, 9], 5),
        vec![true, false, false, true, false]
    );
    assert_eq!(members(&vec![], 2), vec![false, false]);
}

#[test]
fn largest_component_of_the_sample() {
    let net = sample();
    // The forbidden turn and the turn between sidewalks are no edges, so the
    // cycle is the only component with more than one lane.
    assert_eq!(
        largest_component(&net),
        Some(vec![true, true, true, false, false, false, false])
    );
    let no_edges = RoadNetwork::new(
        vec![
            lane(0, 0, true, vec![turn(0, 1, false, false)]),
            lane(1, 0, false, vec![turn(1, 0, true, true)]),
        ],
        1,
    )
    .unwrap();
    assert_eq!(largest_component(&no_edges), None);
}

#[test]
fn floodfiller_question() {
    let net = sample();
    assert_eq!(
        Floodfiller::question(&Some(ID::Lane(LaneID(2))), &net),
        Some(Source::Lane(LaneID(2)))
    );
    // Not a driving lane, or no lane of this network: nothing is offered.
    assert_eq!(Floodfiller::question(&Some(ID::Lane(LaneID(5))), &net), None);
    assert_eq!(Floodfiller::question(&Some(ID::Lane(LaneID(70))), &net), None);
    assert_eq!(
        Floodfiller::question(&None, &net),
        Some(Source::LargestComponent)
    );
    assert_eq!(
        Floodfiller::question(&Some(ID::Building(BuildingID(1))), &net),
        Some(Source::LargestComponent)
    );
}

#[test]
fn floodfiller_colors_lanes_and_roads() {
    let net = sample();
    let f = Floodfiller::new(&net, Source::Lane(LaneID(3)), GREEN, RED).unwrap();
    assert_eq!(f.started_from(), Source::Lane(LaneID(3)));
    assert!(f.reached(LaneID(3)));
    assert!(!f.reached(LaneID(2)));
    assert!(!f.reached(LaneID(99)));
    assert_eq!(f.num_unreachable(), 4);
    assert_eq!(
        f.unreachable_list(),
        &vec![LaneID(0), LaneID(1), LaneID(2), LaneID(4)]
    );
    let c = f.colorer();
    assert_eq!(c.lane_color(LaneID(0)), Some(RED));
    assert_eq!(c.lane_color(LaneID(3)), Some(GREEN));
    assert_eq!(c.lane_color(LaneID(4)), Some(RED));
    // Sidewalks get no color.
    assert_eq!(c.lane_color(LaneID(5)), None);
    assert_eq!(c.lane_color(LaneID(6)), None);
    assert_eq!(c.road_color(0), Some(RED));
    // Road 1 has a reachable and an unreachable lane.
    assert_eq!(c.road_color(1), Some(RED));
    assert_eq!(c.road_color(2), Some(RED));
    assert_eq!(c.road_color(3), None);

    let all = Floodfiller::new(&net, Source::Lane(LaneID(0)), GREEN, RED).unwrap();
    assert_eq!(all.num_unreachable(), 1);
    assert_eq!(all.colorer().road_color(0), Some(GREEN));
    assert_eq!(all.colorer().road_color(1), Some(GREEN));
    assert_eq!(all.colorer().road_color(2), Some(RED));

    let scc = Floodfiller::new(&net, Source::LargestComponent, GREEN, RED).unwrap();
    assert_eq!(scc.started_from(), Source::LargestComponent);
    assert_eq!(scc.unreachable_list(), &vec![LaneID(3), LaneID(4)]);
    assert_eq!(scc.colorer().road_color(0), Some(GREEN));
    assert_eq!(scc.colorer().road_color(1), Some(RED));

    assert_eq!(scc.event(false), Transition::Keep);
    assert_eq!(scc.event(true), Transition::Pop);
    assert_eq!(scc.draw(true), Layer::Roads);
    assert_eq!(scc.draw(false), Layer::Lanes);
}

#[test]
fn floodfiller_without_edges_has_no_component() {
    let net = RoadNetwork::new(vec![lane(0, 0, true, vec![])], 1).unwrap();
    assert!(Floodfiller::new(&net, Source::LargestComponent, GREEN, RED).is_none());
    assert!(Floodfiller::new(&net, Source::Lane(LaneID(0)), GREEN, RED).is_some());
}

#[test]
fn colored_takes_the_marks_as_given() {
    let net = sample();
    let marks = vec![false, true, false, true, false, true, false];
    let f = Floodfiller::colored(&net, Source::LargestComponent, marks, BLUE, RED);
    assert_eq!(
        f.unreachable_list(),
        &vec![LaneID(0), LaneID(2), LaneID(4)]
    );
    assert_eq!(f.colorer().lane_color(LaneID(1)), Some(BLUE));
    assert_eq!(f.colorer().lane_color(LaneID(5)), None);
    assert_eq!(f.colorer().road_color(0), Some(RED));
    assert_eq!(f.colorer().road_color(1), Some(RED));
}

#[test]
fn position_finds_the_first() {
    let colors = vec![RED, GREEN, RED, BLUE];
    assert_eq!(position(&colors, RED), Some(0));
    assert_eq!(position(&colors, GREEN), Some(1));
    assert_eq!(position(&colors, BLUE), Some(3));
    assert_eq!(position(&vec![GREEN], RED), None);
}

#[test]
fn earlier_colors_override_later_ones() {
    let net = sample();
    let mut b = RoadColorerBuilder::new(vec![RED, GREEN]);
    b.add(LaneID(0), GREEN, &net);
    b.add(LaneID(1), RED, &net);
    b.add(LaneID(2), RED, &net);
    b.add(LaneID(3), GREEN, &net);
    let c = b.build();
    assert_eq!(c.lane_color(LaneID(0)), Some(GREEN));
    assert_eq!(c.lane_color(LaneID(1)), Some(RED));
    assert_eq!(c.road_color(0), Some(RED));
    assert_eq!(c.road_color(1), Some(RED));
    assert_eq!(c.road_color(2), None);

    // A color that is not listed overrides a listed one, and nothing
    // overrides it.
    let mut b = RoadColorerBuilder::new(vec![RED, GREEN]);
    b.add(LaneID(0), RED, &net);
    b.add(LaneID(1), BLUE, &net);
    b.add(LaneID(0), RED, &net);
    let c = b.build();
    assert_eq!(c.road_color(0), Some(BLUE));
    assert_eq!(c.draw(true), Layer::Roads);
    assert_eq!(c.draw(false), Layer::Lanes);
}

#[test]
fn object_debugger_tracks_keys_and_selection() {
    let mut d = ObjectDebugger::new();
    assert_eq!(d.selected(), &None);
    assert_eq!(d.tooltip_query(), KeyQuery::Pressed);
    assert_eq!(d.debug_tooltip_query(), KeyQuery::Pressed);
    let t = d.draw();
    assert!(!t.object && !t.cursor);

    // Tooltip key pressed with nothing selected: held, but nothing to show.
    assert!(!d.event(None, true, false, true));
    assert_eq!(d.tooltip_query(), KeyQuery::Released);
    assert_eq!(d.debug_tooltip_query(), KeyQuery::Pressed);
    let t = d.draw();
    assert!(!t.object && !t.cursor);

    // Still held (not released); a car gets selected and debugging is asked.
    let car = Some(ID::Car(sim_scheduler::ids::CarID(3)));
    assert!(d.event(car.clone(), false, true, true));
    assert_eq!(d.selected(), &car);
    let t = d.draw();
    assert!(t.object && t.cursor);

    // Tooltip key released, the other stays held.
    assert!(!d.event(car.clone(), true, false, false));
    assert_eq!(d.tooltip_query(), KeyQuery::Pressed);
    assert_eq!(d.debug_tooltip_query(), KeyQuery::Released);
    let t = d.draw();
    assert!(!t.object && t.cursor);

    let crowd = Some(ID::PedCrowd(vec![
        sim_scheduler::ids::PedestrianID(1),
        sim_scheduler::ids::PedestrianID(2),
    ]));
    assert!(!d.event(crowd.clone(), false, true, false));
    assert_eq!(d.selected(), &crowd);
    let t = d.draw();
    assert!(!t.object && !t.cursor);
}
