//! What holds of every sequence of calls on a scheduler.
//!
//! A sequence of calls is a `Seq<Call>`. The contracts of the scheduler's
//! methods say that each call takes the scheduler from one `Agenda` to the
//! next as `Agenda::step` does, and returns what `Agenda::output` says, so
//! what is proved here of agendas holds of schedulers.

use vstd::prelude::*;
use crate::agenda::Agenda;
use crate::command::{Command, CommandType};
use crate::event_queue::Item;
use crate::time::Duration;

verus! {

/// One call on a scheduler.
pub enum Call {
    Push(Duration, Command),
    Update(Duration, Command),
    Cancel(Command),
    GetNext(Duration),
}

impl Call {
    pub open spec fn is_retrieval(self) -> bool {
        self is GetNext
    }
}

/// Every call in `calls` is a retrieval.
pub open spec fn only_retrievals(calls: Seq<Call>) -> bool {
    forall|i: int| 0 <= i < calls.len() ==> (#[trigger] calls[i]).is_retrieval()
}

impl Agenda {
    /// Whether the call is within its contract in this state.
    pub open spec fn admits(self, call: Call) -> bool {
        match call {
            Call::Push(time, cmd) => self.can_push(time, cmd),
            Call::Update(time, cmd) => self.can_update(time, cmd),
            Call::Cancel(_) => true,
            Call::GetNext(_) => true,
        }
    }

    /// The state that the call leads to.
    pub open spec fn step(self, call: Call) -> Agenda {
        match call {
            Call::Push(time, cmd) => self.schedule(time, cmd),
            Call::Update(time, cmd) => self.schedule(time, cmd),
            Call::Cancel(cmd) => self.cancel(cmd),
            Call::GetNext(now) => self.after_get_next(now),
        }
    }

    /// What the call hands out: a retrieval the next command, the others
    /// nothing.
    pub open spec fn output(self, call: Call) -> Option<(Command, Duration)> {
        match call {
            Call::GetNext(now) => self.next_command(now),
            _ => None,
        }
    }

    /// The state after all of `calls`, made in their order.
    pub open spec fn after(self, calls: Seq<Call>) -> Agenda
        decreases calls.len(),
    {
        if calls.len() == 0 {
            self
        } else {
            self.after(calls.drop_last()).step(calls.last())
        }
    }

    /// Each of `calls` is within its contract when it is made.
    pub open spec fn admits_all(self, calls: Seq<Call>) -> bool {
        forall|i: int|
            0 <= i < calls.len() ==> #[trigger] self.after(calls.take(i)).admits(calls[i])
    }

    /// What call number `i` of `calls` hands out.
    pub open spec fn output_at(self, calls: Seq<Call>, i: int) -> Option<(Command, Duration)> {
        self.after(calls.take(i)).output(calls[i])
    }
}

/// One more call extends the run by one step.
proof fn lemma_after_take(s: Agenda, calls: Seq<Call>, i: int)
    requires
        0 <= i < calls.len(),
    ensures
        s.after(calls.take(i + 1)) == s.after(calls.take(i)).step(calls[i]),
{
    let longer = calls.take(i + 1);
    assert(longer.drop_last() =~= calls.take(i));
    assert(longer.last() == calls[i]);
}

/// A call within its contract keeps the agenda well-formed and does not turn
/// the clock back.
pub proof fn law_step_keeps_wf(s: Agenda, call: Call)
    requires
        s.wf(),
        s.admits(call),
    ensures
        s.step(call).wf(),
        s.clock.ticks() <= s.step(call).clock.ticks(),
{
    match call {
        Call::Push(time, cmd) => s.lemma_schedule_wf(time, cmd),
        Call::Update(time, cmd) => s.lemma_schedule_wf(time, cmd),
        Call::Cancel(cmd) => s.lemma_cancel_wf(cmd),
        Call::GetNext(now) => s.lemma_get_next_wf(now),
    }
}

/// Whatever calls are made within their contracts, the agenda stays
/// well-formed and the clock never goes back: it is at every moment at least
/// what it was at any earlier moment.
pub proof fn law_clock_never_goes_back(s: Agenda, calls: Seq<Call>, i: int, j: int)
    requires
        s.wf(),
        s.admits_all(calls),
        0 <= i <= j <= calls.len(),
    ensures
        s.after(calls.take(i)).wf(),
        s.after(calls.take(j)).wf(),
        s.after(calls.take(i)).clock.ticks() <= s.after(calls.take(j)).clock.ticks(),
    decreases j,
{
    if j == 0 {
        assert(calls.take(0).len() == 0);
    } else if i == j {
        law_clock_never_goes_back(s, calls, i - 1, j - 1);
        lemma_after_take(s, calls, j - 1);
        law_step_keeps_wf(s.after(calls.take(j - 1)), calls[j - 1]);
    } else {
        law_clock_never_goes_back(s, calls, i, j - 1);
        lemma_after_take(s, calls, j - 1);
        law_step_keeps_wf(s.after(calls.take(j - 1)), calls[j - 1]);
    }
}

/// A command is handed out only when its time has come, at the time for
/// which it is scheduled, and never for a time before the clock. The clock
/// then stands at that time, and the command is off the schedule.
pub proof fn law_dispatch_is_due(s: Agenda, now: Duration)
    requires
        s.wf(),
    ensures
        match s.next_command(now) {
            Some((cmd, time)) => {
                &&& time.ticks() <= now.ticks()
                &&& s.clock.ticks() <= time.ticks()
                &&& s.registry.contains_key(cmd.identity())
                &&& s.registry[cmd.identity()] == (cmd, time)
                &&& s.after_get_next(now).clock == time
                &&& s.after_get_next(now).registry == s.registry.remove(cmd.identity())
            },
            None => s.after_get_next(now).registry == s.registry,
        },
{
    s.lemma_next_due(now);
    s.lemma_get_next_wf(now);
    match s.next_due(now) {
        Some(e) => {
            assert(s.queue.count(s.entry(e.cmd_type)) > 0);
        },
        None => {},
    }
}

/// Dispatch times never decrease: of two commands handed out in the course
/// of any calls, the later one carries a time that is no smaller.
pub proof fn law_dispatch_times_never_decrease(s: Agenda, calls: Seq<Call>, i: int, j: int)
    requires
        s.wf(),
        s.admits_all(calls),
        0 <= i < j < calls.len(),
        s.output_at(calls, i).is_some(),
        s.output_at(calls, j).is_some(),
    ensures
        s.output_at(calls, i).unwrap().1.ticks() <= s.output_at(calls, j).unwrap().1.ticks(),
{
    law_clock_never_goes_back(s, calls, i, i + 1);
    law_clock_never_goes_back(s, calls, i + 1, j);
    lemma_after_take(s, calls, i);
    let at_i = s.after(calls.take(i));
    let at_j = s.after(calls.take(j));
    match calls[i] {
        Call::GetNext(now) => law_dispatch_is_due(at_i, now),
        _ => {},
    }
    match calls[j] {
        Call::GetNext(now) => law_dispatch_is_due(at_j, now),
        _ => {},
    }
}

/// Retrievals take commands off the schedule and put none on it: after any
/// number of them, what is scheduled was scheduled before, unchanged.
pub proof fn lemma_retrievals_shrink_registry(s: Agenda, calls: Seq<Call>, i: int, j: int)
    requires
        s.wf(),
        only_retrievals(calls),
        0 <= i <= j <= calls.len(),
    ensures
        s.after(calls.take(i)).wf(),
        s.after(calls.take(j)).wf(),
        forall|id: CommandType| #[trigger]
            s.after(calls.take(j)).registry.contains_key(id) ==> s.after(
                calls.take(i),
            ).registry.contains_key(id) && s.after(calls.take(i)).registry[id] == s.after(
                calls.take(j),
            ).registry[id],
    decreases j,
{
    if j == 0 {
        assert(calls.take(0).len() == 0);
    } else {
        let k = if i == j {
            i - 1
        } else {
            i
        };
        lemma_retrievals_shrink_registry(s, calls, k, j - 1);
        lemma_after_take(s, calls, j - 1);
        let prev = s.after(calls.take(j - 1));
        assert(calls[j - 1].is_retrieval());
        match calls[j - 1] {
            Call::GetNext(now) => {
                law_dispatch_is_due(prev, now);
                prev.lemma_get_next_wf(now);
            },
            _ => {},
        }
    }
}

/// At most one command per identity, from any well-formed state: no two of
/// the commands that retrievals hand out, with no other call between them,
/// have the same identity.
pub proof fn law_one_dispatch_per_identity(s: Agenda, calls: Seq<Call>, i: int, j: int)
    requires
        s.wf(),
        only_retrievals(calls),
        0 <= i < j < calls.len(),
        s.output_at(calls, i).is_some(),
        s.output_at(calls, j).is_some(),
    ensures
        s.output_at(calls, i).unwrap().0.identity() != s.output_at(
            calls,
            j,
        ).unwrap().0.identity(),
{
    lemma_retrievals_shrink_registry(s, calls, i, i + 1);
    lemma_retrievals_shrink_registry(s, calls, i + 1, j);
    lemma_after_take(s, calls, i);
    assert(calls[i].is_retrieval());
    assert(calls[j].is_retrieval());
    match calls[i] {
        Call::GetNext(now) => law_dispatch_is_due(s.after(calls.take(i)), now),
        _ => {},
    }
    match calls[j] {
        Call::GetNext(now) => law_dispatch_is_due(s.after(calls.take(j)), now),
        _ => {},
    }
}

/// Single active command per identity: after any calls of `push`, `update`
/// and `cancel` within their contracts, no two of the commands that the
/// retrievals which follow hand out have the same identity.
pub proof fn law_single_active_per_identity(
    s: Agenda,
    setup: Seq<Call>,
    calls: Seq<Call>,
    i: int,
    j: int,
)
    requires
        s.wf(),
        s.admits_all(setup),
        forall|k: int| 0 <= k < setup.len() ==> !(#[trigger] setup[k]).is_retrieval(),
        only_retrievals(calls),
        0 <= i < j < calls.len(),
        s.after(setup).output_at(calls, i).is_some(),
        s.after(setup).output_at(calls, j).is_some(),
    ensures
        s.after(setup).output_at(calls, i).unwrap().0.identity() != s.after(setup).output_at(
            calls,
            j,
        ).unwrap().0.identity(),
{
    law_clock_never_goes_back(s, setup, 0, setup.len() as int);
    assert(setup.take(setup.len() as int) =~= setup);
    law_one_dispatch_per_identity(s.after(setup), calls, i, j);
}

/// An identity that is not scheduled is never dispatched: no retrieval hands
/// out a command for it.
pub proof fn law_unscheduled_is_never_dispatched(
    s: Agenda,
    id: CommandType,
    calls: Seq<Call>,
    i: int,
)
    requires
        s.wf(),
        !s.registry.contains_key(id),
        only_retrievals(calls),
        0 <= i < calls.len(),
    ensures
        match s.output_at(calls, i) {
            Some((cmd, _)) => cmd.identity() != id,
            None => true,
        },
{
    lemma_retrievals_shrink_registry(s, calls, 0, i);
    assert(calls.take(0).len() == 0);
    assert(calls[i].is_retrieval());
    match calls[i] {
        Call::GetNext(now) => law_dispatch_is_due(s.after(calls.take(i)), now),
        _ => {},
    }
}

/// Cancellation suppresses: after `push(time, cmd)` and a `cancel` for the
/// same identity, no retrieval hands out a command for that identity.
pub proof fn law_cancelled_is_never_dispatched(
    s: Agenda,
    time: Duration,
    cmd: Command,
    cancelled: Command,
    calls: Seq<Call>,
    i: int,
)
    requires
        s.wf(),
        s.can_push(time, cmd),
        cancelled.identity() == cmd.identity(),
        only_retrievals(calls),
        0 <= i < calls.len(),
    ensures
        match s.schedule(time, cmd).cancel(cancelled).output_at(calls, i) {
            Some((c, _)) => c.identity() != cmd.identity(),
            None => true,
        },
{
    s.lemma_schedule_wf(time, cmd);
    s.schedule(time, cmd).lemma_cancel_wf(cancelled);
    law_unscheduled_is_never_dispatched(
        s.schedule(time, cmd).cancel(cancelled),
        cmd.identity(),
        calls,
        i,
    );
}

/// Cancelling a command that is not scheduled changes nothing, so cancelling
/// twice is cancelling once.
pub proof fn law_cancel_is_idempotent(s: Agenda, cmd: Command)
    ensures
        !s.registry.contains_key(cmd.identity()) ==> s.cancel(cmd) == s,
        s.cancel(cmd).cancel(cmd) == s.cancel(cmd),
{
    if !s.registry.contains_key(cmd.identity()) {
        assert(s.cancel(cmd).registry =~= s.registry);
    }
    assert(s.cancel(cmd).cancel(cmd).registry =~= s.cancel(cmd).registry);
}

/// Where the identity of a command is free, `update` may be called in place
/// of `push`, and does what `push` does.
pub proof fn law_update_schedules_if_free(s: Agenda, time: Duration, cmd: Command)
    requires
        s.can_push(time, cmd),
    ensures
        s.admits(Call::Update(time, cmd)),
        s.step(Call::Update(time, cmd)) == s.step(Call::Push(time, cmd)),
{
}

/// While retrievals go on, a scheduled command either is still scheduled as
/// it was, or has been handed out by one of them, with its time.
proof fn lemma_scheduled_or_dispatched(s: Agenda, id: CommandType, calls: Seq<Call>, k: int)
    requires
        s.wf(),
        s.registry.contains_key(id),
        only_retrievals(calls),
        0 <= k <= calls.len(),
    ensures
        s.after(calls.take(k)).wf(),
        (s.after(calls.take(k)).registry.contains_key(id) && s.after(calls.take(k)).registry[id]
            == s.registry[id]) || (exists|i: int|
            0 <= i < k && #[trigger] s.output_at(calls, i) == Some(s.registry[id])),
    decreases k,
{
    if k == 0 {
        assert(calls.take(0).len() == 0);
    } else {
        lemma_scheduled_or_dispatched(s, id, calls, k - 1);
        lemma_after_take(s, calls, k - 1);
        let prev = s.after(calls.take(k - 1));
        assert(calls[k - 1].is_retrieval());
        match calls[k - 1] {
            Call::GetNext(now) => {
                law_dispatch_is_due(prev, now);
                prev.lemma_get_next_wf(now);
                if prev.registry.contains_key(id) && prev.registry[id] == s.registry[id] {
                    if !s.after(calls.take(k)).registry.contains_key(id) {
                        assert(s.output_at(calls, k - 1) == Some(s.registry[id]));
                    }
                } else {
                    let i = choose|i: int|
                        0 <= i < k - 1 && #[trigger] s.output_at(calls, i) == Some(
                            s.registry[id],
                        );
                    assert(0 <= i < k && s.output_at(calls, i) == Some(s.registry[id]));
                }
            },
            _ => {},
        }
    }
}

/// Retrieval at `now` never hands out a command scheduled for a time after
/// `now`.
pub proof fn law_nothing_early(s: Agenda, now: Duration)
    requires
        s.wf(),
    ensures
        match s.next_command(now) {
            Some((cmd, time)) => time.ticks() <= now.ticks() && s.registry[cmd.identity()].1
                == time,
            None => true,
        },
{
    law_dispatch_is_due(s, now);
}

/// While a scheduled command is due, retrieval does not come back empty.
pub proof fn law_due_command_is_found(s: Agenda, now: Duration, id: CommandType)
    requires
        s.wf(),
        s.registry.contains_key(id),
        s.registry[id].1.ticks() <= now.ticks(),
    ensures
        s.next_command(now).is_some(),
{
    s.lemma_due_is_found(now, id);
}

/// No starvation: when retrievals are repeated until one at `now` comes back
/// empty, every command that was scheduled for `now` or earlier has been
/// handed out by one of them, with its time. (By
/// `law_dispatch_times_never_decrease` they came in the order of their
/// times, by `law_one_dispatch_per_identity` each once.)
pub proof fn law_every_due_command_is_dispatched(
    s: Agenda,
    now: Duration,
    id: CommandType,
    calls: Seq<Call>,
    k: int,
)
    requires
        s.wf(),
        s.registry.contains_key(id),
        s.registry[id].1.ticks() <= now.ticks(),
        only_retrievals(calls),
        0 <= k < calls.len(),
        calls[k] == Call::GetNext(now),
        s.output_at(calls, k).is_none(),
    ensures
        exists|i: int| 0 <= i < k && #[trigger] s.output_at(calls, i) == Some(s.registry[id]),
{
    lemma_scheduled_or_dispatched(s, id, calls, k);
    let at_k = s.after(calls.take(k));
    if at_k.registry.contains_key(id) && at_k.registry[id] == s.registry[id] {
        at_k.lemma_due_is_found(now, id);
    }
}

/// After `push(t1, cmd)` and `update(t2, cmd)` with `t2 > t1`, whatever the
/// retrievals hand out for the identity of `cmd` is `cmd` with the time `t2`,
/// never `t1`.
pub proof fn law_rescheduled_never_at_old_time(
    s: Agenda,
    t1: Duration,
    t2: Duration,
    cmd: Command,
    calls: Seq<Call>,
    k: int,
)
    requires
        s.wf(),
        s.can_push(t1, cmd),
        t1.ticks() < t2.ticks(),
        only_retrievals(calls),
        0 <= k < calls.len(),
    ensures
        s.schedule(t1, cmd).can_update(t2, cmd),
        match s.schedule(t1, cmd).schedule(t2, cmd).output_at(calls, k) {
            Some((c, time)) => c.identity() == cmd.identity() ==> c == cmd && time == t2,
            None => true,
        },
{
    let id = cmd.identity();
    let once = s.schedule(t1, cmd);
    let twice = once.schedule(t2, cmd);
    s.lemma_schedule_wf(t1, cmd);
    once.lemma_schedule_wf(t2, cmd);
    assert(twice.registry[id] == (cmd, t2));
    lemma_retrievals_shrink_registry(twice, calls, 0, k);
    assert(calls.take(0).len() == 0);
    assert(calls[k].is_retrieval());
    match calls[k] {
        Call::GetNext(now) => law_dispatch_is_due(twice.after(calls.take(k)), now),
        _ => {},
    }
}

/// Reschedule overrides: after `push(t1, cmd)` and `update(t2, cmd)` with
/// `t2 > t1`, retrievals at `t2` or later hand the command out exactly once,
/// with the time `t2`. Once such a retrieval has come back empty, one
/// retrieval before it has handed out `cmd` with `t2`, and no other
/// retrieval, before or after, hands out a command for its identity.
pub proof fn law_reschedule_overrides(
    s: Agenda,
    t1: Duration,
    t2: Duration,
    cmd: Command,
    now: Duration,
    calls: Seq<Call>,
    k: int,
)
    requires
        s.wf(),
        s.can_push(t1, cmd),
        t1.ticks() < t2.ticks(),
        t2.ticks() <= now.ticks(),
        only_retrievals(calls),
        0 <= k < calls.len(),
        calls[k] == Call::GetNext(now),
        s.schedule(t1, cmd).schedule(t2, cmd).output_at(calls, k).is_none(),
    ensures
        exists|i: int|
            {
                &&& 0 <= i < k
                &&& #[trigger] s.schedule(t1, cmd).schedule(t2, cmd).output_at(calls, i) == Some(
                    (cmd, t2),
                )
                &&& forall|j: int|
                    0 <= j < calls.len() && j != i ==> match #[trigger] s.schedule(
                        t1,
                        cmd,
                    ).schedule(t2, cmd).output_at(calls, j) {
                        Some((c, _)) => c.identity() != cmd.identity(),
                        None => true,
                    }
            },
{
    let id = cmd.identity();
    let once = s.schedule(t1, cmd);
    let twice = once.schedule(t2, cmd);
    s.lemma_schedule_wf(t1, cmd);
    once.lemma_schedule_wf(t2, cmd);
    assert(twice.registry[id] == (cmd, t2));
    law_every_due_command_is_dispatched(twice, now, id, calls, k);
    let i = choose|i: int| 0 <= i < k && #[trigger] twice.output_at(calls, i) == Some((cmd, t2));
    assert forall|j: int| 0 <= j < calls.len() && j != i implies match #[trigger] twice.output_at(
        calls,
        j,
    ) {
        Some((c, _)) => c.identity() != cmd.identity(),
        None => true,
    } by {
        if twice.output_at(calls, j).is_some() {
            if j < i {
                law_one_dispatch_per_identity(twice, calls, j, i);
            } else {
                law_one_dispatch_per_identity(twice, calls, i, j);
            }
        }
    }
}

/// What a retrieval hands out depends on the scheduled commands alone: two
/// agendas with the same registry hand out the same, and have the same
/// registry afterwards, whatever their queues hold.
pub proof fn law_dispatch_depends_on_registry(a: Agenda, b: Agenda, now: Duration)
    requires
        a.registry == b.registry,
    ensures
        a.next_command(now) == b.next_command(now),
        a.after_get_next(now).registry == b.after_get_next(now).registry,
{
    a.lemma_next_due(now);
    b.lemma_next_due(now);
    match a.next_due(now) {
        Some(e) => {
            assert(b.is_first_live(e)) by {
                assert forall|f: Item| #[trigger] b.is_live(f) implies e.not_after(f) by {
                    assert(a.is_live(f));
                }
            }
            let chosen = b.next_due(now).unwrap();
            b.lemma_first_live_unique(chosen, e);
        },
        None => {
            if b.next_due(now).is_some() {
                let e = b.next_due(now).unwrap();
                assert(a.is_first_live(e)) by {
                    assert forall|f: Item| #[trigger] a.is_live(f) implies e.not_after(f) by {
                        assert(b.is_live(f));
                    }
                }
            }
        },
    }
}

/// As `law_dispatch_depends_on_registry`, for any number of retrievals.
pub proof fn law_runs_depend_on_registry(a: Agenda, b: Agenda, calls: Seq<Call>, k: int)
    requires
        a.registry == b.registry,
        only_retrievals(calls),
        0 <= k <= calls.len(),
    ensures
        a.after(calls.take(k)).registry == b.after(calls.take(k)).registry,
        k < calls.len() ==> a.output_at(calls, k) == b.output_at(calls, k),
    decreases k,
{
    if k == 0 {
        assert(calls.take(0).len() == 0);
    } else {
        law_runs_depend_on_registry(a, b, calls, k - 1);
        lemma_after_take(a, calls, k - 1);
        lemma_after_take(b, calls, k - 1);
        assert(calls[k - 1].is_retrieval());
        match calls[k - 1] {
            Call::GetNext(now) => law_dispatch_depends_on_registry(
                a.after(calls.take(k - 1)),
                b.after(calls.take(k - 1)),
                now,
            ),
            _ => {},
        }
    }
    if k < calls.len() {
        assert(calls[k].is_retrieval());
        match calls[k] {
            Call::GetNext(now) => law_dispatch_depends_on_registry(
                a.after(calls.take(k)),
                b.after(calls.take(k)),
                now,
            ),
            _ => {},
        }
    }
}

/// The tie-break is fixed: two schedulers in the same state, on which two
/// commands with different identities are pushed for the same time in the
/// two possible orders, hand out the same commands in the same order.
pub proof fn law_tie_break_ignores_insertion_order(
    s: Agenda,
    time: Duration,
    first: Command,
    second: Command,
    calls: Seq<Call>,
    k: int,
)
    requires
        first.identity() != second.identity(),
        only_retrievals(calls),
        0 <= k < calls.len(),
    ensures
        s.schedule(time, first).schedule(time, second).output_at(calls, k) == s.schedule(
            time,
            second,
        ).schedule(time, first).output_at(calls, k),
{
    let one = s.schedule(time, first).schedule(time, second);
    let other = s.schedule(time, second).schedule(time, first);
    assert(one.registry =~= other.registry);
    law_runs_depend_on_registry(one, other, calls, k);
}

/// Of two commands scheduled for the same time, the one with the greater
/// identity is handed out first: a retrieval never hands out a command while
/// another with a greater identity is scheduled for the same time.
pub proof fn law_tie_break_order(s: Agenda, now: Duration, other: CommandType)
    requires
        s.wf(),
        s.registry.contains_key(other),
    ensures
        match s.next_command(now) {
            Some((cmd, time)) => !(s.registry[other].1 == time && cmd.identity().precedes(other)),
            None => true,
        },
{
    s.lemma_next_due(now);
    match s.next_due(now) {
        Some(e) => {
            assert(s.is_live(s.entry(other)));
            assert(s.queue.count(s.entry(e.cmd_type)) > 0);
            Item::lemma_total(e, s.entry(other));
        },
        None => {},
    }
}

} // verus!
