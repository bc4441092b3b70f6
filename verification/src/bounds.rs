//! How long a run lasts: systems in order, their deadline, and why every
//! run ends by it.

use vstd::prelude::*;
use crate::process::{BurstKind, ProcessView};
use crate::scheduler::{lemma_chosen_in_queue, lemma_wf_is_kept, ResultView, SchedModel};
use crate::simulation::{lemma_admitted_moves, lemma_running_extends, to_queue, SimModel};
use crate::sums::{
    lemma_tally_at_least, lemma_tally_concat, lemma_tally_one, lemma_tally_push,
    lemma_tally_remove,
};
use crate::work::{
    demand_fn, lemma_queue_demand_is_work, lemma_step_keeps, lemma_step_tally,
    lemma_tick_meets_demand, queue_demand,
};

verus! {

/// The process is one for a scheduler of `kind`: its active burst, if it has
/// one, is of that kind.
pub open spec fn serves(process: ProcessView, kind: BurstKind) -> bool {
    process.bursts.len() > 0 ==> process.bursts[0].kind == kind
}

/// The time by which every process of `pending` has arrived, and `floor` at
/// least.
pub open spec fn latest(pending: Seq<ProcessView>, floor: int) -> int
    decreases pending.len(),
{
    if pending.len() == 0 {
        floor
    } else {
        let rest = latest(pending.drop_last(), floor);
        if pending.last().arrival > rest {
            pending.last().arrival
        } else {
            rest
        }
    }
}

/// `latest` is the greatest of `floor` and the arrival times.
pub proof fn lemma_latest(pending: Seq<ProcessView>, floor: int)
    ensures
        latest(pending, floor) >= floor,
        forall|i: int| 0 <= i < pending.len() ==> latest(pending, floor) >= (#[trigger] pending[i]).arrival,
        latest(pending, floor) == floor || exists|i: int|
            0 <= i < pending.len() && latest(pending, floor) == (#[trigger] pending[i]).arrival,
    decreases pending.len(),
{
    if pending.len() > 0 {
        let rest = pending.drop_last();
        lemma_latest(rest, floor);
        assert(forall|i: int| 0 <= i < rest.len() ==> rest[i] == pending[i]);
        if pending.last().arrival <= latest(rest, floor) && latest(rest, floor) != floor {
            let i = choose|i: int| 0 <= i < rest.len() && latest(rest, floor) == (#[trigger] rest[i]).arrival;
            assert(pending[i] == rest[i]);
        }
    }
}

/// A tick of the clock moves `latest` by a tick at most, and not at all
/// while a process is still to arrive later.
pub proof fn lemma_latest_advances(pending: Seq<ProcessView>, floor: int)
    ensures
        latest(pending, floor + 1) <= latest(pending, floor) + 1,
        (exists|i: int| 0 <= i < pending.len() && (#[trigger] pending[i]).arrival > floor) ==> latest(
            pending,
            floor + 1,
        ) == latest(pending, floor),
{
    lemma_latest(pending, floor);
    lemma_latest(pending, floor + 1);
}

/// With fewer processes to wait for, `latest` is no later.
pub proof fn lemma_latest_of_rest(pending: Seq<ProcessView>, floor: int)
    requires
        pending.len() > 0,
    ensures
        latest(pending.drop_first(), floor) <= latest(pending, floor),
{
    let rest = pending.drop_first();
    lemma_latest(pending, floor);
    lemma_latest(rest, floor);
    if latest(rest, floor) != floor {
        let i = choose|i: int| 0 <= i < rest.len() && latest(rest, floor) == (#[trigger] rest[i]).arrival;
        assert(rest[i] == pending[i + 1]);
    }
}

/// A tick of work for the process whose turn it is takes one tick off what
/// the scheduler's processes demand, those that the tick sends on to a queue
/// included.
pub proof fn lemma_step_demand(m: SchedModel)
    requires
        !m.misrouted(),
    ensures
        queue_demand(m.step().0.queue) + queue_demand(to_queue(m.step().1, BurstKind::Cpu))
            + queue_demand(to_queue(m.step().1, BurstKind::Io)) == queue_demand(m.queue) - (if m.queue.len()
            > 0 {
            1int
        } else {
            0int
        }),
{
    let f = demand_fn();
    lemma_step_tally(m, f);
    let p = m.queue[m.chosen()];
    match m.step().1 {
        ResultView::Finished(q) => {
            lemma_tick_meets_demand(p);
            lemma_tally_one(q, f);
        },
        ResultView::Processing(q) => {
            lemma_tick_meets_demand(p);
        },
        _ => {},
    }
}

/// Every process of `queue` has arrived by `time` and is one for a
/// scheduler of `kind`.
pub open spec fn all_in_place(queue: Seq<ProcessView>, time: int, kind: BurstKind) -> bool {
    forall|i: int|
        0 <= i < queue.len() ==> (#[trigger] queue[i]).arrival <= time && serves(queue[i], kind)
}

impl SimModel {
    /// The system is in order: the CPU scheduler serves CPU bursts and the IO
    /// scheduler IO bursts, their bookkeeping is consistent, every process in
    /// a queue has arrived and is in the queue for its active burst, and
    /// every process still to arrive starts with a CPU burst.
    pub open spec fn orderly(self) -> bool {
        &&& self.cpu.kind == BurstKind::Cpu
        &&& self.io.kind == BurstKind::Io
        &&& self.cpu.wf()
        &&& self.io.wf()
        &&& all_in_place(self.cpu.queue, self.time, BurstKind::Cpu)
        &&& all_in_place(self.io.queue, self.time, BurstKind::Io)
        &&& forall|i: int|
            0 <= i < self.pending.len() ==> serves(#[trigger] self.pending[i], BurstKind::Cpu)
    }

    /// The ticks that the processes not yet through take together.
    pub open spec fn demand(self) -> int {
        queue_demand(self.pending) + queue_demand(self.cpu.queue) + queue_demand(self.io.queue)
    }

    /// The time by which the run is over at the latest: were the processes
    /// to run one after the other from the moment the last has arrived.
    pub open spec fn deadline(self) -> int {
        latest(self.pending, self.time) + self.demand()
    }
}

/// Admission keeps the system in order, changes nothing of what the
/// processes demand, and leaves no process to wait for that was not there.
pub proof fn lemma_admitted_orderly(s: SimModel)
    requires
        s.orderly(),
    ensures
        s.admitted().orderly(),
        s.admitted().demand() == s.demand(),
        latest(s.admitted().pending, s.time) <= latest(s.pending, s.time),
    decreases s.pending.len(),
{
    if s.pending.len() > 0 && s.pending[0].arrival <= s.time {
        let next = SimModel {
            pending: s.pending.drop_first(),
            cpu: s.cpu.enqueued(s.pending[0]),
            ..s
        };
        lemma_admitted_orderly(next);
        lemma_latest_of_rest(s.pending, s.time);
        assert(s.pending.drop_first() =~= s.pending.remove(0));
        lemma_tally_remove(s.pending, 0, demand_fn());
        lemma_tally_push(s.cpu.queue, s.pending[0], demand_fn());
    }
}

/// While a process is in the system, something is demanded.
pub proof fn lemma_demand_of_live(s: SimModel)
    ensures
        s.demand() >= 0,
        !s.done() ==> s.demand() >= 1,
{
    lemma_queue_demand(s.pending);
    lemma_queue_demand(s.cpu.queue);
    lemma_queue_demand(s.io.queue);
}

/// Every process demands a tick at least.
pub proof fn lemma_queue_demand(queue: Seq<ProcessView>)
    ensures
        queue_demand(queue) >= queue.len(),
{
    let f = demand_fn();
    assert forall|i: int| 0 <= i < queue.len() implies f(#[trigger] queue[i]) >= 1 by {
        if queue[i].bursts.len() > 0 {
            lemma_tick_meets_demand(queue[i]);
        }
    }
    lemma_tally_at_least(queue, f, 1);
}

/// A tick keeps the system in order.
pub proof fn lemma_tick_orderly(s: SimModel)
    requires
        s.orderly(),
    ensures
        s.ticked().orderly(),
        s.ticked().time == s.time + 1,
{
    let a = s.admitted();
    lemma_admitted_orderly(s);
    lemma_admitted_moves(s);
    lemma_wf_is_kept(a.cpu);
    lemma_wf_is_kept(a.io);
    if a.cpu.queue.len() > 0 {
        lemma_chosen_in_queue(a.cpu);
    }
    if a.io.queue.len() > 0 {
        lemma_chosen_in_queue(a.io);
    }
    let time = s.time;
    lemma_step_keeps(a.cpu, |p: ProcessView| p.arrival <= time && serves(p, BurstKind::Cpu));
    lemma_step_keeps(a.io, |p: ProcessView| p.arrival <= time && serves(p, BurstKind::Io));
}

/// While a process is in the system, a tick does not move the deadline out.
pub proof fn lemma_tick_deadline(s: SimModel)
    requires
        s.orderly(),
        !s.done(),
    ensures
        s.ticked().deadline() <= s.deadline(),
{
    let a = s.admitted();
    lemma_admitted_orderly(s);
    lemma_admitted_moves(s);
    let (cpu, by_cpu) = a.cpu.step();
    let (io, by_io) = a.io.step();
    let f = demand_fn();
    if a.cpu.queue.len() > 0 {
        lemma_chosen_in_queue(a.cpu);
    }
    if a.io.queue.len() > 0 {
        lemma_chosen_in_queue(a.io);
    }
    lemma_step_demand(a.cpu);
    lemma_step_demand(a.io);
    lemma_tally_concat(cpu.queue, to_queue(by_cpu, BurstKind::Cpu), f);
    lemma_tally_concat(
        cpu.queue + to_queue(by_cpu, BurstKind::Cpu),
        to_queue(by_io, BurstKind::Cpu),
        f,
    );
    lemma_tally_concat(io.queue, to_queue(by_cpu, BurstKind::Io), f);
    lemma_tally_concat(io.queue + to_queue(by_cpu, BurstKind::Io), to_queue(by_io, BurstKind::Io), f);
    lemma_latest_advances(a.pending, s.time);
}

/// A system in order whose clock can advance can take a tick.
pub proof fn lemma_orderly_tickable(s: SimModel)
    requires
        s.orderly(),
        s.time < i32::MAX,
    ensures
        s.tickable(),
{
    let a = s.admitted();
    lemma_admitted_orderly(s);
    lemma_admitted_moves(s);
    if a.cpu.queue.len() > 0 {
        lemma_chosen_in_queue(a.cpu);
    }
    if a.io.queue.len() > 0 {
        lemma_chosen_in_queue(a.io);
    }
}

/// A system with nothing to run and nothing to arrive is left so by a tick.
pub proof fn lemma_done_stays_done(s: SimModel)
    requires
        s.done(),
    ensures
        s.ticked().done(),
{
}

/// As long as a run from a system in order is not done, the system stays in
/// order with a process in it, the clock has advanced by one per tick, and
/// the deadline has not moved out.
pub proof fn lemma_orderly_run(start: SimModel, n: nat)
    requires
        start.orderly(),
        !start.done(),
        start.running(n),
    ensures
        start.after(n).orderly(),
        !start.after(n).done(),
        start.after(n).time == start.time + n,
        start.after(n).deadline() <= start.deadline(),
        start.after(n).time < start.after(n).deadline(),
    decreases n,
{
    reveal(SimModel::running);
    if n > 0 {
        let earlier = (n - 1) as nat;
        lemma_orderly_run(start, earlier);
        lemma_tick_orderly(start.after(earlier));
        lemma_tick_deadline(start.after(earlier));
    }
    lemma_demand_of_live(start.after(n));
    lemma_latest(start.after(n).pending, start.after(n).time);
}

/// A system in order whose deadline the clock can reach can take every tick
/// of its run.
pub proof fn lemma_can_run(start: SimModel)
    requires
        start.orderly(),
        start.time < i32::MAX,
        start.deadline() <= i32::MAX,
    ensures
        start.runnable(),
{
    assert forall|n: nat| start.running(n) implies (#[trigger] start.after(n)).tickable() by {
        if start.done() {
            if n > 0 {
                reveal(SimModel::running);
                lemma_done_stays_done(start);
                assert(start.after(1) == start.after(0).ticked());
            }
            lemma_orderly_tickable(start);
        } else {
            lemma_orderly_run(start, n);
            lemma_orderly_tickable(start.after(n));
        }
    }
}

/// A run from a system in order with a process in it that is not done after
/// `n` ticks ends later, and by the deadline.
proof fn lemma_run_ends_from(start: SimModel, n: nat) -> (ticks: nat)
    requires
        start.orderly(),
        !start.done(),
        start.running(n),
    ensures
        start.ends_after(ticks),
        start.time + ticks <= start.deadline(),
    decreases start.deadline() - start.time - n,
{
    lemma_orderly_run(start, n);
    if start.after(n + 1).done() {
        n + 1
    } else {
        lemma_running_extends(start, n);
        lemma_run_ends_from(start, n + 1)
    }
}

/// Every run from a system in order ends. Where a process is in the system,
/// it ends by the deadline; where none is, it ends with its first tick.
pub proof fn lemma_run_ends(start: SimModel) -> (ticks: nat)
    requires
        start.orderly(),
    ensures
        start.ends_after(ticks),
        !start.done() ==> start.time + ticks <= start.deadline(),
        start.done() ==> ticks == 1,
{
    crate::simulation::lemma_running_at_start(start);
    if start.done() {
        lemma_done_stays_done(start);
        assert(start.after(1) == start.after(0).ticked());
        1
    } else {
        lemma_run_ends_from(start, 0)
    }
}

/// A run from tick 0 of a system in order, in which a process is, every
/// process has a burst and every burst has work left, ends within as many
/// ticks as the bursts have units, all together, and the latest arrival
/// time.
pub proof fn lemma_run_is_bounded(start: SimModel, ticks: nat)
    requires
        start.orderly(),
        start.time == 0,
        !start.done(),
        start.loaded(),
        start.positive(),
        start.ends_after(ticks),
    ensures
        ticks <= start.work() + latest(start.pending, 0),
{
    lemma_queue_demand_is_work(start.pending);
    lemma_queue_demand_is_work(start.cpu.queue);
    lemma_queue_demand_is_work(start.io.queue);
    lemma_orderly_run(start, (ticks - 1) as nat);
}

} // verus!
