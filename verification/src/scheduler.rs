//! The scheduler: a queue of dispatch entries beside the table of scheduled
//! commands, with stale entries discarded when they reach the front.

use vstd::prelude::*;
use vstd::multiset::Multiset;
use crate::agenda::Agenda;
use crate::command::{Command, CommandType};
use crate::event_queue::{EventQueue, Item};
use crate::histogram::{DurationHistogram, Tally};
use crate::text::joined;
use crate::entry_set::EntrySet;
use crate::registry::{
    ascending_identities, distinct_identities, lemma_table_of, table_of, Registry,
};
use crate::time::Duration;

verus! {

/// The state of a scheduler as plain values, to be written out and read
/// back: the clock, the scheduled commands with their times, and the
/// queue's entries. The statistics are not part of it.
pub struct Snapshot {
    pub latest_time: Duration,
    pub commands: Vec<(Command, Duration)>,
    pub items: Vec<Item>,
}

impl Snapshot {
    /// The state that the values stand for.
    pub open spec fn agenda(&self) -> Agenda {
        Agenda {
            registry: table_of(self.commands@),
            queue: self.items@.to_multiset(),
            clock: self.latest_time,
        }
    }

    /// The values are the state of some scheduler: no two commands have the
    /// same identity, each has its entry among the items, and no item lies
    /// before the clock.
    pub open spec fn valid(&self) -> bool {
        &&& distinct_identities(self.commands@)
        &&& forall|i: int|
            0 <= i < self.commands@.len() ==> self.items@.contains(
                Item {
                    time: (#[trigger] self.commands@[i]).1,
                    cmd_type: self.commands@[i].0.identity(),
                },
            )
        &&& forall|j: int|
            0 <= j < self.items@.len() ==> self.latest_time.ticks() <= (
            #[trigger] self.items@[j]).time.ticks()
    }

    /// Valid values stand for a well-formed state.
    pub proof fn lemma_valid_agenda(&self)
        requires
            self.valid(),
        ensures
            self.agenda().wf(),
    {
        let a = self.agenda();
        let commands = self.commands@;
        lemma_table_of(commands);
        self.items@.to_multiset_ensures();
        assert forall|id: CommandType| #[trigger] a.registry.contains_key(id) implies {
            &&& a.registry[id].0.identity() == id
            &&& a.queue.count(a.entry(id)) > 0
        } by {
            let i = choose|i: int|
                0 <= i < commands.len() && (#[trigger] commands[i]).0.identity() == id;
            assert(a.registry[commands[i].0.identity()] == commands[i]);
        }
        assert forall|e: Item| #[trigger] a.queue.count(e) > 0 implies a.clock.ticks()
            <= e.time.ticks() by {
            assert(self.items@.contains(e));
            let j = choose|j: int| 0 <= j < self.items@.len() && self.items@[j] == e;
            assert(self.latest_time.ticks() <= self.items@[j].time.ticks());
        }
    }
}

pub struct Scheduler {
    items: EventQueue,
    queued_commands: Registry,
    latest_time: Duration,
    delta_times: DurationHistogram,
}

impl View for Scheduler {
    type V = Agenda;

    /// The scheduled commands, the queue's entries and the clock. The
    /// statistics are no part of it.
    closed spec fn view(&self) -> Agenda {
        Agenda {
            registry: self.queued_commands@,
            queue: self.items@,
            clock: self.latest_time,
        }
    }
}

impl Scheduler {
    pub closed spec fn wf(&self) -> bool {
        &&& self.items.wf()
        &&& self.queued_commands.wf()
        &&& self@.wf()
    }

    /// The spans recorded so far, from the clock to the time of each `push`.
    pub closed spec fn stats(&self) -> Tally {
        self.delta_times@
    }

    /// A well-formed scheduler stands for a well-formed agenda.
    pub proof fn lemma_wf_agenda(&self)
        requires
            self.wf(),
        ensures
            self@.wf(),
    {
    }

    pub fn new() -> (s: Scheduler)
        ensures
            s.wf(),
            s@ == Agenda::start(s@.clock),
            s@.clock.ticks() == 0,
            s.stats() == Tally::empty(),
    {
        Scheduler {
            items: EventQueue::new(),
            queued_commands: Registry::new(),
            latest_time: Duration::zero(),
            delta_times: DurationHistogram::new(),
        }
    }

    /// The time of the entry taken from the queue last.
    pub fn latest_time(&self) -> (t: Duration)
        ensures
            t == self@.clock,
    {
        self.latest_time
    }

    /// The command scheduled under `id`, with its time.
    pub fn scheduled(&self, id: &CommandType) -> (r: Option<(Command, Duration)>)
        requires
            self.wf(),
        ensures
            r == (if self@.registry.contains_key(*id) {
                Some(self@.registry[*id])
            } else {
                None
            }),
    {
        self.queued_commands.get(id)
    }

    /// Whether two schedulers stand for the same schedule: the same commands
    /// for the same times, and the same clock. Neither the queues nor the
    /// statistics are compared.
    pub fn same_schedule(&self, other: &Scheduler) -> (b: bool)
        requires
            self.wf(),
            other.wf(),
        ensures
            b == (self@.registry == other@.registry && self@.clock == other@.clock),
    {
        self.latest_time == other.latest_time && self.queued_commands.same_as(
            &other.queued_commands,
        )
    }

    /// The state as plain values: the commands in the order of their
    /// identities, the queue's entries in no particular order.
    pub fn snapshot(&self) -> (snap: Snapshot)
        requires
            self.wf(),
        ensures
            snap.valid(),
            snap.agenda() == self@,
            ascending_identities(snap.commands@),
    {
        let snap = Snapshot {
            latest_time: self.latest_time,
            commands: self.queued_commands.entries(),
            items: self.items.entries(),
        };
        proof {
            let commands = snap.commands@;
            lemma_table_of(commands);
            snap.items@.to_multiset_ensures();
            assert forall|i: int| 0 <= i < commands.len() implies snap.items@.contains(
                Item { time: (#[trigger] commands[i]).1, cmd_type: commands[i].0.identity() },
            ) by {
                let id = commands[i].0.identity();
                assert(self@.registry[id] == commands[i]);
                assert(self@.registry.contains_key(id));
                assert(self@.queue.count(self@.entry(id)) > 0);
            }
            assert forall|j: int| 0 <= j < snap.items@.len() implies self.latest_time.ticks() <= (
            #[trigger] snap.items@[j]).time.ticks() by {
                assert(snap.items@.contains(snap.items@[j]));
                assert(self@.queue.count(snap.items@[j]) > 0);
            }
        }
        snap
    }

    /// The scheduler in the state that the values stand for, with empty
    /// statistics; `None` if they are the state of no scheduler.
    pub fn restore(snap: &Snapshot) -> (r: Option<Scheduler>)
        ensures
            r.is_some() == snap.valid(),
            match r {
                Some(s) => s.wf() && s@ == snap.agenda() && s.stats() == Tally::empty(),
                None => true,
            },
    {
        let clock = snap.latest_time;
        let mut items = EventQueue::new();
        let mut held = EntrySet::new();
        let n: usize = snap.items.len();
        let mut j: usize = 0;
        proof {
            assert(snap.items@.take(0) =~= Seq::<Item>::empty());
            snap.items@.take(0).to_multiset_ensures();
            assert(snap.items@.take(0).to_multiset() =~= vstd::multiset::Multiset::<Item>::empty());
            assert(held@ =~= snap.items@.take(0).to_set());
        }
        while j < n
            invariant
                n == snap.items@.len(),
                j <= n,
                clock == snap.latest_time,
                items.wf(),
                items@ == snap.items@.take(j as int).to_multiset(),
                held@ == snap.items@.take(j as int).to_set(),
                forall|x: int|
                    0 <= x < j ==> clock.ticks() <= (#[trigger] snap.items@[x]).time.ticks(),
            decreases n - j,
        {
            let item = snap.items[j];
            if item.time.is_before(clock) {
                return None;
            }
            items.push(item);
            held.insert(item);
            proof {
                let before = snap.items@.take(j as int);
                let after = snap.items@.take(j + 1);
                assert(after =~= before.push(item));
                vstd::seq_lib::to_multiset_build(before, item);
                assert(after.to_set() =~= before.to_set().insert(item)) by {
                    assert forall|e: Item| after.contains(e) implies before.contains(e) || e
                        == item by {
                        let x = choose|x: int| 0 <= x < after.len() && after[x] == e;
                        if x < before.len() {
                            assert(before[x] == e);
                        }
                    }
                    assert forall|e: Item| before.contains(e) || e == item implies after.contains(
                        e,
                    ) by {
                        if before.contains(e) {
                            let x = choose|x: int| 0 <= x < before.len() && before[x] == e;
                            assert(after[x] == e);
                        } else {
                            assert(after[before.len() as int] == e);
                        }
                    }
                }
            }
            j += 1;
        }
        assert(snap.items@.take(n as int) =~= snap.items@);
        let mut queued_commands = Registry::new();
        let m: usize = snap.commands.len();
        let mut i: usize = 0;
        proof {
            assert(snap.commands@.take(0) =~= Seq::<(Command, Duration)>::empty());
        }
        while i < m
            invariant
                m == snap.commands@.len(),
                i <= m,
                queued_commands.wf(),
                queued_commands@ == table_of(snap.commands@.take(i as int)),
                distinct_identities(snap.commands@.take(i as int)),
                held@ == snap.items@.to_set(),
                forall|x: int|
                    0 <= x < i ==> snap.items@.contains(
                        Item {
                            time: (#[trigger] snap.commands@[x]).1,
                            cmd_type: snap.commands@[x].0.identity(),
                        },
                    ),
            decreases m - i,
        {
            let (cmd, time) = snap.commands[i];
            let cmd_type = cmd.to_type();
            let ghost before = snap.commands@.take(i as int);
            let ghost after = snap.commands@.take(i + 1);
            proof {
                assert(after =~= before.push((cmd, time)));
                assert(after.drop_last() =~= before);
                lemma_table_of(before);
            }
            if queued_commands.get(&cmd_type).is_some() {
                proof {
                    let x = choose|x: int|
                        0 <= x < before.len() && (#[trigger] before[x]).0.identity() == cmd_type;
                    assert(snap.commands@[x].0.identity() == snap.commands@[i as int].0.identity());
                }
                return None;
            }
            if !held.contains(&Item { time, cmd_type }) {
                return None;
            }
            queued_commands.insert(cmd, time);
            proof {
                assert forall|x: int, y: int| 0 <= x < y < after.len() implies (
                #[trigger] after[x]).0.identity() != (#[trigger] after[y]).0.identity() by {
                    if y < before.len() {
                        assert(before[x].0.identity() != before[y].0.identity());
                    } else {
                        assert(before[x].0.identity() == after[x].0.identity());
                    }
                }
            }
            i += 1;
        }
        assert(snap.commands@.take(m as int) =~= snap.commands@);
        let s = Scheduler {
            items,
            queued_commands,
            latest_time: clock,
            delta_times: DurationHistogram::new(),
        };
        proof {
            snap.lemma_valid_agenda();
        }
        Some(s)
    }

    /// How many entries wait in the queue, stale ones included.
    pub fn queue_len(&self) -> (n: usize)
        ensures
            n == self@.queue.len(),
    {
        self.items.len()
    }

    /// Whether `push(time, cmd)` may be called.
    pub fn can_push(&self, time: Duration, cmd: &Command) -> (b: bool)
        requires
            self.wf(),
        ensures
            b == self@.can_push(time, *cmd),
    {
        !time.is_before(self.latest_time) && self.queued_commands.get(&cmd.to_type()).is_none()
    }

    /// Whether `update(new_time, cmd)` may be called.
    pub fn can_update(&self, new_time: Duration, cmd: &Command) -> (b: bool)
        requires
            self.wf(),
        ensures
            b == self@.can_update(new_time, *cmd),
    {
        if new_time.is_before(self.latest_time) {
            return false;
        }
        match self.queued_commands.get(&cmd.to_type()) {
            Some(existing) => existing.0 == *cmd,
            None => true,
        }
    }

    fn insert(&mut self, time: Duration, cmd: Command)
        requires
            old(self).wf(),
            old(self)@.clock.ticks() <= time.ticks(),
        ensures
            final(self).wf(),
            final(self)@ == old(self)@.schedule(time, cmd),
            final(self).stats() == old(self).stats(),
    {
        let cmd_type = cmd.to_type();
        self.queued_commands.insert(cmd, time);
        self.items.push(Item { time, cmd_type });
        proof {
            old(self)@.lemma_schedule_wf(time, cmd);
        }
    }

    /// Schedules `cmd` for `time`, for the first time. `time` may not lie
    /// before the clock, and the identity of `cmd` must be free.
    pub fn push(&mut self, time: Duration, cmd: Command)
        requires
            old(self).wf(),
            old(self)@.can_push(time, cmd),
        ensures
            final(self).wf(),
            final(self)@ == old(self)@.schedule(time, cmd),
            final(self).stats() == old(self).stats().record(
                (time.ticks() - old(self)@.clock.ticks()) as nat,
            ),
    {
        self.delta_times.add(time.since(self.latest_time));
        self.insert(time, cmd);
    }

    /// As `push`, but the statistics take no note of it: for seeding many
    /// commands when a simulation starts.
    pub fn quick_push(&mut self, time: Duration, cmd: Command)
        requires
            old(self).wf(),
            old(self)@.can_push(time, cmd),
        ensures
            final(self).wf(),
            final(self)@ == old(self)@.schedule(time, cmd),
            final(self).stats() == old(self).stats(),
    {
        self.insert(time, cmd);
    }

    /// Ends a batch of `quick_push` calls. Nothing is buffered, so nothing
    /// changes.
    pub fn finalize_batch(&mut self)
        ensures
            final(self).wf() == old(self).wf(),
            final(self)@ == old(self)@,
            final(self).stats() == old(self).stats(),
    {
    }

    /// Schedules `cmd` for `new_time`, whether or not it is scheduled already.
    /// `new_time` may not lie before the clock; where the identity of `cmd` is
    /// taken, `cmd` must be the command scheduled there.
    pub fn update(&mut self, new_time: Duration, cmd: Command)
        requires
            old(self).wf(),
            old(self)@.can_update(new_time, cmd),
        ensures
            final(self).wf(),
            final(self)@ == old(self)@.schedule(new_time, cmd),
            final(self).stats() == old(self).stats(),
    {
        self.insert(new_time, cmd);
    }

    /// Takes the command with the identity of `cmd` off the schedule, if one
    /// is there.
    pub fn cancel(&mut self, cmd: Command)
        requires
            old(self).wf(),
        ensures
            final(self).wf(),
            final(self)@ == old(self)@.cancel(cmd),
            final(self).stats() == old(self).stats(),
    {
        let _ = self.queued_commands.remove(&cmd.to_type());
        proof {
            old(self)@.lemma_cancel_wf(cmd);
        }
    }

    /// Hands out the next command whose time has come at `now`, with its
    /// time, and takes it off the schedule; `None` if no scheduled command is
    /// due.
    pub fn get_next(&mut self, now: Duration) -> (r: Option<(Command, Duration)>)
        requires
            old(self).wf(),
        ensures
            final(self).wf(),
            r == old(self)@.next_command(now),
            final(self)@ == old(self)@.after_get_next(now),
            final(self).stats() == old(self).stats(),
    {
        broadcast use vstd::multiset::group_multiset_axioms;

        let ghost start = self@;
        let ghost last: Option<Item> = None;
        loop
            invariant
                self.items.wf(),
                self.queued_commands.wf(),
                start.wf(),
                start == old(self)@,
                self.queued_commands@ == start.registry,
                self.delta_times == old(self).delta_times,
                forall|e: Item| #[trigger] self.items@.count(e) <= start.queue.count(e),
                forall|e: Item| #[trigger]
                    self.items@.count(e) != start.queue.count(e) ==> !start.is_live(e)
                        && e.time.ticks() <= now.ticks(),
                forall|e: Item, f: Item|
                    #[trigger] self.items@.count(e) != start.queue.count(e)
                        && #[trigger] self.items@.count(f) > 0 ==> e.not_after(f),
                match last {
                    Some(l) => {
                        &&& self.latest_time == l.time
                        &&& start.queue.count(l) > 0
                        &&& l.time.ticks() <= now.ticks()
                        &&& forall|e: Item| #[trigger]
                            self.items@.count(e) != start.queue.count(e) ==> e.not_after(l)
                    },
                    None => self.latest_time == start.clock && self.items@ == start.queue,
                },
            decreases self.items@.len(),
        {
            let item = match self.items.peek() {
                Some(item) => item,
                None => {
                    proof {
                        Self::lemma_nothing_due(start, self@, now, last);
                        start.lemma_get_next_wf(now);
                    }
                    return None;
                },
            };
            if now.is_before(item.time) {
                proof {
                    Self::lemma_nothing_due(start, self@, now, last);
                    start.lemma_get_next_wf(now);
                }
                return None;
            }
            let ghost held = self.items@;
            self.latest_time = item.time;
            let popped = self.items.pop();
            proof {
                Item::lemma_total(popped.unwrap(), item);
                assert(self.items@ == held.remove(item));
            }
            match self.queued_commands.get(&item.cmd_type) {
                Some(entry) => {
                    if !item.time.is_before(entry.1) {
                        proof {
                            self.queued_commands.lemma_filed_by_identity();
                            Self::lemma_dispatches(start, held, now, item);
                            start.lemma_get_next_wf(now);
                        }
                        let _ = self.queued_commands.remove(&item.cmd_type);
                        proof {
                            assert(self@.registry =~= start.after_get_next(now).registry);
                            assert(self@.queue =~= start.after_get_next(now).queue);
                        }
                        return Some(entry);
                    }
                },
                None => {},
            }
            proof {
                assert(!start.is_live(item));
                assert forall|e: Item, f: Item|
                    #[trigger] self.items@.count(e) != start.queue.count(e)
                        && #[trigger] self.items@.count(f) > 0 implies e.not_after(f) by {
                    assert(held.count(f) > 0);
                    if e != item {
                        assert(held.count(e) != start.queue.count(e));
                    }
                }
                assert forall|e: Item| #[trigger]
                    self.items@.count(e) != start.queue.count(e) implies e.not_after(item) by {
                    if e != item {
                        assert(held.count(e) != start.queue.count(e));
                        assert(held.count(item) > 0);
                    }
                }
                last = Some(item);
            }
        }
    }

    /// Where the queue's earliest entry is live, it is the entry to dispatch.
    proof fn lemma_dispatches(start: Agenda, held: Multiset<Item>, now: Duration, item: Item)
        requires
            start.wf(),
            EventQueue::is_earliest(held, item),
            item.time.ticks() <= now.ticks(),
            start.registry.contains_key(item.cmd_type),
            start.registry[item.cmd_type].1.ticks() <= item.time.ticks(),
            forall|e: Item| #[trigger] held.count(e) <= start.queue.count(e),
            forall|e: Item| #[trigger]
                held.count(e) != start.queue.count(e) ==> !start.is_live(e),
            forall|e: Item, f: Item|
                #[trigger] held.count(e) != start.queue.count(e) && #[trigger] held.count(f) > 0
                    ==> e.not_after(f),
        ensures
            start.is_live(item),
            start.next_due(now) == Some(item),
            start.after_get_next(now).queue =~= held.remove(item),
    {
        broadcast use vstd::multiset::group_multiset_axioms;

        let id = item.cmd_type;
        let live = start.entry(id);
        assert(start.is_live(live));
        assert(held.count(live) == start.queue.count(live));
        assert(item.not_after(live));
        Duration::lemma_ticks_injective(live.time, item.time);
        assert(live == item);
        assert forall|f: Item| #[trigger] start.is_live(f) implies item.not_after(f) by {
            assert(f == start.entry(f.cmd_type));
            assert(held.count(f) == start.queue.count(f));
        }
        assert(start.is_first_live(item));
        let chosen = choose|e: Item| start.is_first_live(e) && e.time.ticks() <= now.ticks();
        start.lemma_first_live_unique(chosen, item);
        let after = start.after_get_next(now);
        assert forall|e: Item| after.queue.count(e) == held.remove(item).count(e) by {
            Item::lemma_total(e, item);
            if e.comes_before(item) {
                if held.count(e) > 0 {
                    assert(item.not_after(e));
                }
            } else if e != item {
                if held.count(e) != start.queue.count(e) {
                    assert(held.count(item) > 0);
                    assert(e.not_after(item));
                }
            }
        }
    }

    /// Where the queue is empty or its earliest entry is not due, no scheduled
    /// command is due.
    proof fn lemma_nothing_due(start: Agenda, cur: Agenda, now: Duration, last: Option<Item>)
        requires
            start.wf(),
            cur.registry == start.registry,
            forall|e: Item| #[trigger] cur.queue.count(e) > 0 ==> now.ticks() < e.time.ticks(),
            forall|e: Item| #[trigger] cur.queue.count(e) <= start.queue.count(e),
            forall|e: Item| #[trigger]
                cur.queue.count(e) != start.queue.count(e) ==> !start.is_live(e)
                    && e.time.ticks() <= now.ticks(),
            match last {
                Some(l) => {
                    &&& cur.clock == l.time
                    &&& start.queue.count(l) > 0
                    &&& l.time.ticks() <= now.ticks()
                    &&& forall|e: Item| #[trigger]
                        cur.queue.count(e) != start.queue.count(e) ==> e.not_after(l)
                },
                None => cur.clock == start.clock && cur.queue == start.queue,
            },
        ensures
            start.next_command(now).is_none(),
            start.after_get_next(now) == cur,
    {
        broadcast use vstd::multiset::group_multiset_axioms;

        assert forall|e: Item| start.is_live(e) implies now.ticks() < e.time.ticks() by {
            assert(e == start.entry(e.cmd_type));
            assert(cur.queue.count(e) == start.queue.count(e));
            assert(cur.queue.count(e) > 0);
        }
        assert(start.next_due(now).is_none());
        let after = start.after_get_next(now);
        assert(after.queue =~= cur.queue) by {
            assert forall|e: Item| after.queue.count(e) == cur.queue.count(e) by {
                if now.ticks() < e.time.ticks() {
                } else {
                    if cur.queue.count(e) > 0 {
                    }
                }
            }
        }
        match last {
            Some(l) => {
                assert forall|f: Item| #[trigger]
                    start.queue.count(f) > 0 && f.time.ticks() <= now.ticks() implies f.not_after(
                    l,
                ) by {
                    if cur.queue.count(f) > 0 {
                    }
                }
                assert(start.is_last_due(now, l));
                let chosen = choose|x: Item| start.is_last_due(now, x);
                start.lemma_last_due_unique(now, chosen, l);
            },
            None => {
                assert forall|l: Item| !start.is_last_due(now, l) by {
                    if start.queue.count(l) > 0 {
                    }
                }
            },
        }
        assert(after.clock == cur.clock);
    }

    /// The statistics in words.
    pub fn describe_stats(&self) -> (s: String)
        ensures
            s@ == "delta times for events: "@ + self.stats().text(),
    {
        let body = self.delta_times.describe();
        joined("delta times for events: ", body.as_str())
    }
}

} // verus!
