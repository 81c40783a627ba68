use sim_scheduler::command::{Command, CommandType, CreateCar, CreatePedestrian};
use sim_scheduler::ids::{AgentID, CarID, IntersectionID, PedestrianID};
use sim_scheduler::event_queue::Item;
use sim_scheduler::scheduler::{Scheduler, Snapshot};
use sim_scheduler::time::Duration;

fn t(ticks: u64) -> Duration {
    Duration::from_ticks(ticks)
}

fn spawn_car(id: usize) -> Command {
    Command::SpawnCar(
        CreateCar {
            vehicle_id: CarID(id),
            request: 7,
        },
        true,
    )
}

fn spawn_ped(id: usize) -> Command {
    Command::SpawnPed(CreatePedestrian {
        id: PedestrianID(id),
        request: 9,
    })
}

#[test]
fn scenario_three_pushes_drain_in_order() {
    let mut s = Scheduler::new();
    let a = spawn_car(1);
    let b = spawn_ped(2);
    let i = Command::UpdateIntersection(IntersectionID(3));
    s.push(t(10), a);
    s.push(t(10), b);
    s.push(t(5), i);
    assert_eq!(s.get_next(t(20)), Some((i, t(5))));
    // Same time: the greater identity goes first, and a pedestrian's is
    // greater than a car's.
    assert_eq!(s.get_next(t(20)), Some((b, t(10))));
    assert_eq!(s.get_next(t(20)), Some((a, t(10))));
    assert_eq!(s.get_next(t(20)), None);
}

#[test]
fn scenario_update_then_cancel_returns_none() {
    let mut s = Scheduler::new();
    let c = Command::UpdateCar(CarID(4));
    s.push(t(5), c);
    s.update(t(8), c);
    s.cancel(c);
    assert_eq!(s.get_next(t(100)), None);
    assert_eq!(s.get_next(t(100)), None);
}

#[test]
fn dispatch_times_never_decrease() {
    let mut s = Scheduler::new();
    let times: [u64; 8] = [40, 3, 17, 3, 99, 0, 17, 64];
    for (k, time) in times.iter().enumerate() {
        s.push(t(*time), Command::UpdateCar(CarID(k)));
    }
    let mut seen: Vec<u64> = Vec::new();
    while let Some((_, at)) = s.get_next(t(1000)) {
        seen.push(at.to_ticks());
    }
    assert_eq!(seen, vec![0, 3, 3, 17, 17, 40, 64, 99]);
}

#[test]
fn one_command_per_identity() {
    let mut s = Scheduler::new();
    let c = Command::UpdateCar(CarID(1));
    s.push(t(2), c);
    s.update(t(4), c);
    s.update(t(3), c);
    s.cancel(c);
    s.push(t(6), c);
    s.update(t(6), c);
    let mut got = Vec::new();
    while let Some(pair) = s.get_next(t(50)) {
        got.push(pair);
    }
    assert_eq!(got, vec![(c, t(6))]);
}

#[test]
fn reschedule_overrides() {
    let mut s = Scheduler::new();
    let c = Command::UpdatePed(PedestrianID(8));
    s.push(t(5), c);
    s.update(t(9), c);
    // Not at the old time.
    assert_eq!(s.get_next(t(5)), None);
    assert_eq!(s.get_next(t(8)), None);
    assert_eq!(s.get_next(t(9)), Some((c, t(9))));
    assert_eq!(s.get_next(t(9)), None);
    assert_eq!(s.get_next(t(1000)), None);
}

#[test]
fn reschedule_to_an_earlier_time() {
    let mut s = Scheduler::new();
    let c = Command::UpdatePed(PedestrianID(8));
    s.push(t(9), c);
    s.update(t(5), c);
    assert_eq!(s.get_next(t(20)), Some((c, t(5))));
    assert_eq!(s.get_next(t(20)), None);
    assert_eq!(s.latest_time(), t(9));
}

#[test]
fn cancellation_suppresses() {
    let mut s = Scheduler::new();
    let c = spawn_car(5);
    let other = Command::UpdateCar(CarID(6));
    s.push(t(4), c);
    s.push(t(4), other);
    // Any command with the same identity cancels it.
    s.cancel(Command::UpdateCar(CarID(5)));
    assert_eq!(s.get_next(t(10)), Some((other, t(4))));
    assert_eq!(s.get_next(t(10)), None);
}

#[test]
fn cancel_of_unknown_command_is_a_no_op() {
    let mut s = Scheduler::new();
    s.cancel(Command::CheckForGridlock);
    s.push(t(1), Command::CheckForGridlock);
    assert_eq!(s.get_next(t(1)), Some((Command::CheckForGridlock, t(1))));
    s.cancel(Command::CheckForGridlock);
    assert_eq!(s.get_next(t(1)), None);
}

#[test]
fn tie_break_ignores_insertion_order() {
    let a = Command::UpdateCar(CarID(1));
    let b = Command::UpdateIntersection(IntersectionID(1));
    let mut one = Scheduler::new();
    one.push(t(7), a);
    one.push(t(7), b);
    let mut other = Scheduler::new();
    other.push(t(7), b);
    other.push(t(7), a);
    for _ in 0..3 {
        let x = one.get_next(t(7));
        let y = other.get_next(t(7));
        assert_eq!(x, y);
    }
    assert_eq!(one.get_next(t(7)), None);
}

#[test]
fn tie_break_puts_greater_identity_first() {
    let mut s = Scheduler::new();
    let cmds = [
        Command::UpdateCar(CarID(1)),
        Command::UpdateCar(CarID(2)),
        Command::UpdateLaggyHead(CarID(0)),
        Command::UpdatePed(PedestrianID(0)),
        Command::UpdateIntersection(IntersectionID(0)),
        Command::CheckForGridlock,
        Command::Savestate(t(30)),
    ];
    for c in cmds.iter() {
        s.push(t(3), *c);
    }
    let mut got = Vec::new();
    while let Some((c, at)) = s.get_next(t(3)) {
        assert_eq!(at, t(3));
        got.push(c);
    }
    let mut expected = cmds.to_vec();
    expected.reverse();
    assert_eq!(got, expected);
}

#[test]
fn nothing_is_handed_out_early() {
    let mut s = Scheduler::new();
    let a = Command::UpdateCar(CarID(1));
    let b = Command::UpdateCar(CarID(2));
    s.push(t(10), a);
    s.push(t(11), b);
    assert_eq!(s.get_next(t(9)), None);
    assert_eq!(s.get_next(t(10)), Some((a, t(10))));
    assert_eq!(s.get_next(t(10)), None);
    assert_eq!(s.get_next(t(11)), Some((b, t(11))));
    assert_eq!(s.get_next(t(11)), None);
}

#[test]
fn clock_follows_discarded_entries() {
    let mut s = Scheduler::new();
    let c = Command::UpdateCar(CarID(1));
    assert_eq!(s.latest_time(), t(0));
    s.push(t(5), c);
    s.cancel(c);
    assert_eq!(s.get_next(t(3)), None);
    assert_eq!(s.latest_time(), t(0));
    assert_eq!(s.get_next(t(10)), None);
    assert_eq!(s.latest_time(), t(5));
    assert!(!s.can_push(t(4), &c));
    assert!(s.can_push(t(5), &c));
}

#[test]
fn can_push_and_can_update_tell_the_contract() {
    let mut s = Scheduler::new();
    let c = Command::UpdateCar(CarID(1));
    let same_slot = spawn_car(1);
    s.push(t(5), c);
    assert!(!s.can_push(t(6), &c));
    assert!(!s.can_push(t(6), &same_slot));
    assert!(s.can_update(t(6), &c));
    assert!(!s.can_update(t(6), &same_slot));
    assert!(s.can_update(t(6), &Command::UpdateCar(CarID(2))));
    assert_eq!(s.scheduled(&CommandType::Car(CarID(1))), Some((c, t(5))));
    assert_eq!(s.scheduled(&CommandType::CarLaggyHead(CarID(1))), None);
    assert_eq!(s.get_next(t(5)), Some((c, t(5))));
    assert!(!s.can_update(t(4), &c));
    assert!(s.can_push(t(5), &same_slot));
}

#[test]
fn update_without_push_schedules() {
    let mut s = Scheduler::new();
    let c = Command::UpdateLaggyHead(CarID(1));
    s.update(t(2), c);
    assert_eq!(s.get_next(t(2)), Some((c, t(2))));
}

#[test]
fn car_and_its_laggy_head_are_scheduled_side_by_side() {
    let mut s = Scheduler::new();
    let head = Command::UpdateCar(CarID(1));
    let tail = Command::UpdateLaggyHead(CarID(1));
    s.push(t(2), head);
    s.push(t(1), tail);
    assert_eq!(s.get_next(t(2)), Some((tail, t(1))));
    assert_eq!(s.get_next(t(2)), Some((head, t(2))));
}

#[test]
fn identity_of_each_command() {
    assert_eq!(spawn_car(3).to_type(), CommandType::Car(CarID(3)));
    assert_eq!(spawn_ped(4).to_type(), CommandType::Ped(PedestrianID(4)));
    assert_eq!(
        Command::UpdateCar(CarID(5)).to_type(),
        CommandType::Car(CarID(5))
    );
    assert_eq!(
        Command::UpdateLaggyHead(CarID(5)).to_type(),
        CommandType::CarLaggyHead(CarID(5))
    );
    assert_eq!(
        Command::UpdatePed(PedestrianID(6)).to_type(),
        CommandType::Ped(PedestrianID(6))
    );
    assert_eq!(
        Command::UpdateIntersection(IntersectionID(7)).to_type(),
        CommandType::Intersection(IntersectionID(7))
    );
    assert_eq!(
        Command::CheckForGridlock.to_type(),
        CommandType::CheckForGridlock
    );
    assert_eq!(Command::Savestate(t(1)).to_type(), CommandType::Savestate);
}

#[test]
fn update_agent_picks_the_command() {
    assert_eq!(
        Command::update_agent(AgentID::Car(CarID(2))),
        Command::UpdateCar(CarID(2))
    );
    assert_eq!(
        Command::update_agent(AgentID::Pedestrian(PedestrianID(2))),
        Command::UpdatePed(PedestrianID(2))
    );
}

#[test]
fn order_of_identities() {
    let low = CommandType::Car(CarID(9));
    let high = CommandType::CarLaggyHead(CarID(0));
    assert!(low.is_before(&high));
    assert!(!high.is_before(&low));
    assert!(!low.is_before(&low));
    assert!(CommandType::Ped(PedestrianID(1)).is_before(&CommandType::Ped(PedestrianID(2))));
    assert!(CommandType::CheckForGridlock.is_before(&CommandType::Savestate));
    assert_eq!(CommandType::Intersection(IntersectionID(4)).key(), (3, 4));
    assert_eq!(CommandType::Savestate.key(), (5, 0));
}

#[test]
fn derived_order_of_identities_is_the_verified_one() {
    let all = [
        CommandType::Car(CarID(0)),
        CommandType::Car(CarID(7)),
        CommandType::CarLaggyHead(CarID(0)),
        CommandType::CarLaggyHead(CarID(3)),
        CommandType::Ped(PedestrianID(1)),
        CommandType::Ped(PedestrianID(2)),
        CommandType::Intersection(IntersectionID(0)),
        CommandType::Intersection(IntersectionID(usize::MAX)),
        CommandType::CheckForGridlock,
        CommandType::Savestate,
    ];
    for a in all.iter() {
        for b in all.iter() {
            assert_eq!(a < b, a.is_before(b));
            assert_eq!(a.key() < b.key(), a.is_before(b));
        }
    }
}

#[test]
fn stats_take_note_of_push_only() {
    let mut s = Scheduler::new();
    assert_eq!(s.describe_stats(), "delta times for events: no data yet");
    s.quick_push(t(3), Command::UpdateCar(CarID(1)));
    s.finalize_batch();
    s.update(t(4), Command::UpdateCar(CarID(1)));
    assert_eq!(s.describe_stats(), "delta times for events: no data yet");
    s.push(t(5), Command::UpdateCar(CarID(2)));
    s.push(t(10), Command::UpdateCar(CarID(3)));
    assert_eq!(
        s.describe_stats(),
        "delta times for events: 2 count, min 5, mean 7, max 10"
    );
    assert_eq!(
        s.get_next(t(4)),
        Some((Command::UpdateCar(CarID(1)), t(4)))
    );
    s.push(t(104), Command::UpdateCar(CarID(4)));
    assert_eq!(
        s.describe_stats(),
        "delta times for events: 3 count, min 5, mean 38, max 100"
    );
}

#[test]
fn many_commands_come_out_sorted() {
    let mut s = Scheduler::new();
    let mut x: u64 = 12345;
    let mut expected: Vec<(u64, usize)> = Vec::new();
    for k in 0..500usize {
        x = x.wrapping_mul(6364136223846793005).wrapping_add(1442695040888963407);
        let time = (x >> 33) % 50;
        s.push(t(time), Command::UpdateCar(CarID(k)));
        expected.push((time, k));
    }
    // Reschedule some, cancel others.
    for k in (0..500usize).step_by(7) {
        let c = Command::UpdateCar(CarID(k));
        s.update(t(60 + (k as u64 % 5)), c);
        expected.retain(|e| e.1 != k);
        expected.push((60 + (k as u64 % 5), k));
    }
    for k in (3..500usize).step_by(11) {
        s.cancel(Command::UpdateCar(CarID(k)));
        expected.retain(|e| e.1 != k);
    }
    expected.sort_by(|a, b| a.0.cmp(&b.0).then(b.1.cmp(&a.1)));
    let mut got: Vec<(u64, usize)> = Vec::new();
    while let Some((c, at)) = s.get_next(t(1000)) {
        match c {
            Command::UpdateCar(CarID(k)) => got.push((at.to_ticks(), k)),
            _ => unreachable!(),
        }
    }
    assert_eq!(got, expected);
}

#[test]
fn same_schedule_ignores_queue_and_statistics() {
    let a = Command::UpdateCar(CarID(1));
    let b = Command::UpdatePed(PedestrianID(2));
    let mut one = Scheduler::new();
    one.push(t(3), a);
    one.update(t(5), a);
    one.push(t(4), b);
    let mut other = Scheduler::new();
    other.quick_push(t(4), b);
    other.quick_push(t(5), a);
    assert_eq!(one.queue_len(), 3);
    assert_eq!(other.queue_len(), 2);
    assert!(one.same_schedule(&other));
    assert!(other.same_schedule(&one));
    assert_ne!(one.describe_stats(), other.describe_stats());

    other.update(t(6), a);
    assert!(!one.same_schedule(&other));
    one.update(t(6), a);
    assert!(one.same_schedule(&other));

    one.cancel(b);
    assert!(!one.same_schedule(&other));
    assert!(!other.same_schedule(&one));
    other.cancel(b);
    assert!(one.same_schedule(&other));

    // The clocks count.
    assert_eq!(one.get_next(t(6)), Some((a, t(6))));
    assert!(!one.same_schedule(&other));
    assert_eq!(other.get_next(t(6)), Some((a, t(6))));
    assert!(one.same_schedule(&other));
}

#[test]
fn same_schedule_tells_commands_in_one_slot_apart() {
    let mut one = Scheduler::new();
    one.push(t(3), spawn_car(1));
    let mut other = Scheduler::new();
    other.push(t(3), Command::UpdateCar(CarID(1)));
    assert!(!one.same_schedule(&other));
}

#[test]
fn snapshot_round_trip_keeps_the_schedule() {
    let a = Command::UpdateCar(CarID(1));
    let b = spawn_ped(2);
    let c = Command::Savestate(t(77));
    let mut s = Scheduler::new();
    s.push(t(3), a);
    s.push(t(9), b);
    s.update(t(6), a);
    s.push(t(4), c);
    s.cancel(c);
    assert_eq!(s.get_next(t(3)), None);
    assert_eq!(s.latest_time(), t(3));

    let snap = s.snapshot();
    assert_eq!(snap.latest_time, t(3));
    // In the order of the identities.
    assert_eq!(snap.commands, vec![(a, t(6)), (b, t(9))]);
    let mut items: Vec<(u64, (u8, usize))> = snap
        .items
        .iter()
        .map(|i| (i.time.to_ticks(), i.cmd_type.key()))
        .collect();
    items.sort();
    assert_eq!(items, vec![(4, (5, 0)), (6, (0, 1)), (9, (2, 2))]);

    let mut back = Scheduler::restore(&snap).unwrap();
    assert!(back.same_schedule(&s));
    assert_eq!(back.describe_stats(), "delta times for events: no data yet");
    assert_eq!(back.queue_len(), 3);
    for _ in 0..4 {
        assert_eq!(back.get_next(t(50)), s.get_next(t(50)));
        assert!(back.same_schedule(&s));
    }
    assert_eq!(back.latest_time(), t(9));

    // A command without its entry.
    let bad = Snapshot {
        latest_time: t(0),
        commands: vec![(a, t(6))],
        items: vec![Item {
            time: t(5),
            cmd_type: a.to_type(),
        }],
    };
    assert!(Scheduler::restore(&bad).is_none());
    // Two commands in one slot.
    let bad = Snapshot {
        latest_time: t(0),
        commands: vec![(a, t(6)), (spawn_car(1), t(6))],
        items: vec![Item {
            time: t(6),
            cmd_type: a.to_type(),
        }],
    };
    assert!(Scheduler::restore(&bad).is_none());
    // An entry before the clock.
    let bad = Snapshot {
        latest_time: t(7),
        commands: vec![],
        items: vec![Item {
            time: t(6),
            cmd_type: a.to_type(),
        }],
    };
    assert!(Scheduler::restore(&bad).is_none());
    // Stale entries are welcome.
    let good = Snapshot {
        latest_time: t(6),
        commands: vec![(a, t(8))],
        items: vec![
            Item {
                time: t(6),
                cmd_type: a.to_type(),
            },
            Item {
                time: t(8),
                cmd_type: a.to_type(),
            },
            Item {
                time: t(8),
                cmd_type: a.to_type(),
            },
        ],
    };
    let mut restored = Scheduler::restore(&good).unwrap();
    assert_eq!(restored.get_next(t(10)), Some((a, t(8))));
    assert_eq!(restored.get_next(t(10)), None);
    assert_eq!(restored.queue_len(), 0);
}
