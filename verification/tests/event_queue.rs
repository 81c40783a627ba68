use sim_scheduler::command::CommandType;
use sim_scheduler::event_queue::{EventQueue, Item};
use sim_scheduler::ids::{CarID, PedestrianID};
use sim_scheduler::time::Duration;
use std::cmp::Ordering;

fn item(ticks: u64, cmd_type: CommandType) -> Item {
    Item {
        time: Duration::from_ticks(ticks),
        cmd_type,
    }
}

#[test]
fn queue_hands_out_earliest_first() {
    let mut q = EventQueue::new();
    assert!(q.is_empty());
    assert_eq!(q.peek(), None);
    assert_eq!(q.pop(), None);
    let mut x: u64 = 99;
    let mut all = Vec::new();
    for k in 0..300usize {
        x = x.wrapping_mul(6364136223846793005).wrapping_add(1442695040888963407);
        let it = item((x >> 40) % 20, CommandType::Car(CarID(k % 40)));
        q.push(it);
        all.push(it);
    }
    assert_eq!(q.len(), 300);
    all.sort_by(|a, b| {
        a.time
            .to_ticks()
            .cmp(&b.time.to_ticks())
            .then(b.cmd_type.key().cmp(&a.cmd_type.key()))
    });
    for expected in all {
        assert_eq!(q.peek(), Some(expected));
        assert_eq!(q.pop(), Some(expected));
    }
    assert!(q.is_empty());
}

#[test]
fn queue_keeps_duplicates() {
    let mut q = EventQueue::new();
    let it = item(4, CommandType::Savestate);
    q.push(it);
    q.push(it);
    assert_eq!(q.len(), 2);
    assert_eq!(q.pop(), Some(it));
    assert_eq!(q.pop(), Some(it));
    assert_eq!(q.pop(), None);
}

#[test]
fn item_order_is_reversed_in_time_only() {
    let early = item(1, CommandType::Car(CarID(5)));
    let late = item(2, CommandType::Car(CarID(5)));
    assert_eq!(early.cmp(&late), Ordering::Greater);
    assert_eq!(late.cmp(&early), Ordering::Less);
    assert_eq!(early.cmp(&early), Ordering::Equal);
    assert!(early.is_before(&late));
    assert!(!late.is_before(&early));
    let car = item(3, CommandType::Car(CarID(9)));
    let ped = item(3, CommandType::Ped(PedestrianID(0)));
    assert_eq!(ped.cmp(&car), Ordering::Greater);
    assert_eq!(car.cmp(&ped), Ordering::Less);
    assert!(ped.is_before(&car));
    let low = item(3, CommandType::Car(CarID(1)));
    assert!(car.is_before(&low));
    assert!(!low.is_before(&car));
}

#[test]
fn durations() {
    let a = Duration::from_ticks(7);
    let b = Duration::from_ticks(10);
    assert_eq!(Duration::zero().to_ticks(), 0);
    assert!(a.is_before(b));
    assert!(!b.is_before(a));
    assert!(!a.is_before(a));
    assert_eq!(b.since(a), Duration::from_ticks(3));
    assert_eq!(a.since(a), Duration::zero());
}
