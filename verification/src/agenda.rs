//! What a scheduler stands for: the scheduled commands, the entries waiting
//! in the queue, and the clock.
//!
//! Everything here is ghost code. The scheduler's contracts say which
//! `Agenda` each call leads to; the module `laws` derives from these
//! definitions what holds of any sequence of calls.

use vstd::prelude::*;
use vstd::multiset::Multiset;
use crate::command::{Command, CommandType};
use crate::event_queue::Item;
use crate::time::Duration;

verus! {

pub struct Agenda {
    /// The command scheduled for each identity, with its dispatch time.
    pub registry: Map<CommandType, (Command, Duration)>,
    /// The queue's entries, stale ones included.
    pub queue: Multiset<Item>,
    /// The time of the entry taken from the queue last.
    pub clock: Duration,
}

impl Agenda {
    /// The state of a scheduler on which nothing was called yet.
    pub open spec fn start(clock: Duration) -> Agenda {
        Agenda { registry: Map::empty(), queue: Multiset::empty(), clock }
    }

    /// The queue entry that stands for the command scheduled under `id`.
    pub open spec fn entry(self, id: CommandType) -> Item {
        Item { time: self.registry[id].1, cmd_type: id }
    }

    /// `e` stands for a scheduled command: its identity is scheduled, for
    /// exactly the time of `e`. Every other entry is stale.
    pub open spec fn is_live(self, e: Item) -> bool {
        self.registry.contains_key(e.cmd_type) && self.registry[e.cmd_type].1 == e.time
    }

    pub open spec fn wf(self) -> bool {
        &&& forall|id: CommandType| #[trigger]
            self.registry.contains_key(id) ==> self.registry[id].0.identity() == id
        &&& forall|id: CommandType| #[trigger]
            self.registry.contains_key(id) ==> self.queue.count(self.entry(id)) > 0
        &&& forall|e: Item| #[trigger]
            self.queue.count(e) > 0 ==> self.clock.ticks() <= e.time.ticks()
    }

    /// A command may be scheduled for the first time if its time is not
    /// before the clock and its identity is free.
    pub open spec fn can_push(self, time: Duration, cmd: Command) -> bool {
        &&& self.clock.ticks() <= time.ticks()
        &&& !self.registry.contains_key(cmd.identity())
    }

    /// A command may be rescheduled if the new time is not before the clock
    /// and, where its identity is taken, it is the command scheduled there.
    pub open spec fn can_update(self, time: Duration, cmd: Command) -> bool {
        &&& self.clock.ticks() <= time.ticks()
        &&& self.registry.contains_key(cmd.identity()) ==> self.registry[cmd.identity()].0 == cmd
    }

    /// Scheduling `cmd` for `time`, for the first time or again: the registry
    /// takes the pair, the queue one more entry.
    pub open spec fn schedule(self, time: Duration, cmd: Command) -> Agenda {
        Agenda {
            registry: self.registry.insert(cmd.identity(), (cmd, time)),
            queue: self.queue.insert(Item { time, cmd_type: cmd.identity() }),
            clock: self.clock,
        }
    }

    /// Cancelling leaves the queue alone.
    pub open spec fn cancel(self, cmd: Command) -> Agenda {
        Agenda {
            registry: self.registry.remove(cmd.identity()),
            queue: self.queue,
            clock: self.clock,
        }
    }

    /// `e` is live and no live entry comes before it.
    pub open spec fn is_first_live(self, e: Item) -> bool {
        &&& self.is_live(e)
        &&& forall|f: Item| #[trigger] self.is_live(f) ==> e.not_after(f)
    }

    /// The entry that a retrieval at `now` dispatches: the first live entry,
    /// if its time has come.
    pub open spec fn next_due(self, now: Duration) -> Option<Item> {
        if exists|e: Item| self.is_first_live(e) && e.time.ticks() <= now.ticks() {
            Some(choose|e: Item| self.is_first_live(e) && e.time.ticks() <= now.ticks())
        } else {
            None
        }
    }

    /// `l` is the last, in the order of dispatch, of the queue's entries
    /// whose time has come at `now`.
    pub open spec fn is_last_due(self, now: Duration, l: Item) -> bool {
        &&& self.queue.count(l) > 0
        &&& l.time.ticks() <= now.ticks()
        &&& forall|f: Item| #[trigger]
            self.queue.count(f) > 0 && f.time.ticks() <= now.ticks() ==> f.not_after(l)
    }

    /// The clock after a retrieval at `now` that found nothing to dispatch:
    /// the time of the last entry it discarded, if it discarded any.
    pub open spec fn drained_clock(self, now: Duration) -> Duration {
        if exists|l: Item| self.is_last_due(now, l) {
            (choose|l: Item| self.is_last_due(now, l)).time
        } else {
            self.clock
        }
    }

    /// What a retrieval at `now` returns.
    pub open spec fn next_command(self, now: Duration) -> Option<(Command, Duration)> {
        match self.next_due(now) {
            Some(e) => Some(self.registry[e.cmd_type]),
            None => None,
        }
    }

    /// The state after a retrieval at `now`.
    ///
    /// Where an entry `e` is dispatched, its command leaves the registry, the
    /// queue loses every entry before `e` and one copy of `e`, and the clock
    /// stands at the time of `e`. Where nothing is due, the queue loses every
    /// entry whose time has come.
    pub open spec fn after_get_next(self, now: Duration) -> Agenda {
        match self.next_due(now) {
            Some(e) => Agenda {
                registry: self.registry.remove(e.cmd_type),
                queue: self.queue.filter(|f: Item| !f.comes_before(e)).remove(e),
                clock: e.time,
            },
            None => Agenda {
                registry: self.registry,
                queue: self.queue.filter(|f: Item| now.ticks() < f.time.ticks()),
                clock: self.drained_clock(now),
            },
        }
    }

    /// Scheduling keeps an agenda well-formed.
    pub proof fn lemma_schedule_wf(self, time: Duration, cmd: Command)
        requires
            self.wf(),
            self.clock.ticks() <= time.ticks(),
        ensures
            self.schedule(time, cmd).wf(),
    {
        broadcast use vstd::multiset::group_multiset_axioms;

        let after = self.schedule(time, cmd);
        assert forall|id: CommandType| #[trigger] after.registry.contains_key(id) implies {
            &&& after.registry[id].0.identity() == id
            &&& after.queue.count(after.entry(id)) > 0
        } by {
            if id != cmd.identity() {
                assert(self.registry.contains_key(id));
                assert(self.queue.count(self.entry(id)) > 0);
            }
        }
        assert forall|e: Item| #[trigger] after.queue.count(e) > 0 implies after.clock.ticks()
            <= e.time.ticks() by {
            if e != (Item { time, cmd_type: cmd.identity() }) {
                assert(self.queue.count(e) > 0);
            }
        }
    }

    /// Cancelling keeps an agenda well-formed.
    pub proof fn lemma_cancel_wf(self, cmd: Command)
        requires
            self.wf(),
        ensures
            self.cancel(cmd).wf(),
    {
        let after = self.cancel(cmd);
        assert forall|id: CommandType| #[trigger] after.registry.contains_key(id) implies {
            &&& after.registry[id].0.identity() == id
            &&& after.queue.count(after.entry(id)) > 0
        } by {
            assert(self.registry.contains_key(id));
            assert(after.entry(id) == self.entry(id));
        }
    }

    /// A finite set of entries that is not empty has a first one.
    proof fn lemma_has_first(s: Set<Item>)
        requires
            s.finite(),
            !s.is_empty(),
        ensures
            exists|m: Item| s.contains(m) && forall|e: Item| s.contains(e) ==> m.not_after(e),
        decreases s.len(),
    {
        broadcast use vstd::set::group_set_axioms;

        let x = s.choose();
        let rest = s.remove(x);
        if rest.is_empty() {
            assert forall|e: Item| s.contains(e) implies x.not_after(e) by {
                if e != x {
                    assert(rest.contains(e));
                }
            }
        } else {
            Self::lemma_has_first(rest);
            let m = choose|m: Item|
                rest.contains(m) && forall|e: Item| rest.contains(e) ==> m.not_after(e);
            Item::lemma_total(x, m);
            if x.comes_before(m) {
                assert forall|e: Item| s.contains(e) implies x.not_after(e) by {
                    if e != x {
                        assert(rest.contains(e));
                        Item::lemma_transitive(x, m, e);
                    }
                }
            } else {
                assert forall|e: Item| s.contains(e) implies m.not_after(e) by {
                    if e != x {
                        assert(rest.contains(e));
                    }
                }
            }
        }
    }

    /// While a scheduled command is due, a retrieval finds one to dispatch.
    pub proof fn lemma_due_is_found(self, now: Duration, id: CommandType)
        requires
            self.wf(),
            self.registry.contains_key(id),
            self.registry[id].1.ticks() <= now.ticks(),
        ensures
            self.next_due(now).is_some(),
    {
        let live = self.queue.dom().filter(|e: Item| self.is_live(e));
        assert(self.queue.dom().finite()) by {
            broadcast use vstd::multiset::group_multiset_axioms;

        }
        self.queue.dom().lemma_len_filter(|e: Item| self.is_live(e));
        let due = self.entry(id);
        assert(self.is_live(due));
        assert(live.contains(due));
        Self::lemma_has_first(live);
        let m = choose|m: Item|
            live.contains(m) && forall|e: Item| live.contains(e) ==> m.not_after(e);
        assert forall|f: Item| #[trigger] self.is_live(f) implies m.not_after(f) by {
            assert(f == self.entry(f.cmd_type));
            assert(live.contains(f));
        }
        assert(m.not_after(due));
        assert(self.is_first_live(m) && m.time.ticks() <= now.ticks());
    }

    /// The entry that `next_due` names is the first live one, and its time
    /// has come.
    pub proof fn lemma_next_due(self, now: Duration)
        ensures
            self.next_due(now).is_some() ==> self.is_first_live(self.next_due(now).unwrap())
                && self.next_due(now).unwrap().time.ticks() <= now.ticks(),
    {
    }

    /// A retrieval keeps an agenda well-formed, and its clock does not go
    /// back; where a command is handed out, the clock stands at its time.
    pub proof fn lemma_get_next_wf(self, now: Duration)
        requires
            self.wf(),
        ensures
            self.after_get_next(now).wf(),
            self.clock.ticks() <= self.after_get_next(now).clock.ticks(),
            match self.next_command(now) {
                Some(pair) => pair.1 == self.after_get_next(now).clock,
                None => true,
            },
    {
        broadcast use vstd::multiset::group_multiset_axioms;

        let after = self.after_get_next(now);
        match self.next_due(now) {
            Some(m) => {
                assert(self.queue.count(self.entry(m.cmd_type)) > 0);
                assert forall|i: CommandType| #[trigger] after.registry.contains_key(i) implies {
                    &&& after.registry[i].0.identity() == i
                    &&& after.queue.count(after.entry(i)) > 0
                } by {
                    let f = self.entry(i);
                    assert(self.registry.contains_key(i));
                    assert(self.is_live(f));
                    assert(after.entry(i) == f);
                    assert(m.not_after(f));
                    Item::lemma_total(f, m);
                }
                assert forall|e: Item| #[trigger] after.queue.count(e) > 0 implies after.clock.ticks()
                    <= e.time.ticks() by {
                    Item::lemma_total(e, m);
                }
            },
            None => {
                assert forall|i: CommandType| #[trigger] after.registry.contains_key(i) implies {
                    &&& after.registry[i].0.identity() == i
                    &&& after.queue.count(after.entry(i)) > 0
                } by {
                    if self.registry[i].1.ticks() <= now.ticks() {
                        self.lemma_due_is_found(now, i);
                    }
                    assert(self.queue.count(self.entry(i)) > 0);
                }
                if exists|l: Item| self.is_last_due(now, l) {
                    let l = choose|l: Item| self.is_last_due(now, l);
                    assert(self.queue.count(l) > 0);
                }
                assert forall|e: Item| #[trigger] after.queue.count(e) > 0 implies after.clock.ticks()
                    <= e.time.ticks() by {
                    assert(self.queue.count(e) > 0);
                }
            },
        }
    }

    /// At most one entry is the first live one.
    pub proof fn lemma_first_live_unique(self, a: Item, b: Item)
        requires
            self.is_first_live(a),
            self.is_first_live(b),
        ensures
            a == b,
    {
        Item::lemma_total(a, b);
    }

    /// At most one entry is the last due one.
    pub proof fn lemma_last_due_unique(self, now: Duration, a: Item, b: Item)
        requires
            self.is_last_due(now, a),
            self.is_last_due(now, b),
        ensures
            a == b,
    {
        Item::lemma_total(a, b);
    }
}

} // verus!
