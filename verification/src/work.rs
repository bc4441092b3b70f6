//! The work that processes have left, the ticks that they demand, and what a
//! tick does to both.

use vstd::prelude::*;
use crate::log::TickView;
use crate::process::{Burst, BurstKind, ProcessView};
use crate::simulation::{lemma_admitted_moves, lemma_trace_extends, to_finished, to_queue, SimModel};
use crate::scheduler::{lemma_chosen_in_queue, served, Policy, ResultView, SchedModel};
use crate::sums::{
    lemma_tally_at_least, lemma_tally_at_most, lemma_tally_concat, lemma_tally_insert,
    lemma_tally_one, lemma_tally_push, lemma_tally_remove, lemma_tally_same, lemma_tally_update,
    tally,
};

verus! {

/// What one tick of a scheduler reports and what it does to a sum over the
/// queue. With `p` the process whose turn it is:
/// - `Idle` comes from an empty queue and `WrongKind` from a process of the
///   other kind, and neither changes anything;
/// - `NoBurstLeft` carries `p`, which had no bursts and leaves the queue;
/// - `Finished` carries `p` without its active burst, which had at most one
///   unit left, and `p` leaves the queue;
/// - `Processing` carries `p` with one unit less on its active burst, which
///   had at least two, and `p` stays in the queue in that form.
pub proof fn lemma_step_tally(m: SchedModel, f: spec_fn(ProcessView) -> int)
    ensures
        m.step().0.kind == m.kind,
        ({
            let (next, result) = m.step();
            let p = m.queue[m.chosen()];
            match result {
                ResultView::Idle => m.queue.len() == 0 && next == m,
                ResultView::WrongKind => m.misrouted() && next == m,
                ResultView::NoBurstLeft(q) => {
                    &&& m.queue.len() > 0
                    &&& q == p
                    &&& p.bursts.len() == 0
                    &&& next.queue.len() == m.queue.len() - 1
                    &&& tally(next.queue, f) == tally(m.queue, f) - f(p)
                },
                ResultView::Finished(q) => {
                    &&& m.queue.len() > 0
                    &&& !m.misrouted()
                    &&& q == p.ticked().advanced()
                    &&& p.bursts.len() > 0
                    &&& p.bursts[0].remaining <= 1
                    &&& next.queue.len() == m.queue.len() - 1
                    &&& tally(next.queue, f) == tally(m.queue, f) - f(p)
                },
                ResultView::Processing(q) => {
                    &&& m.queue.len() > 0
                    &&& !m.misrouted()
                    &&& q == p.ticked()
                    &&& p.bursts.len() > 0
                    &&& p.bursts[0].remaining >= 2
                    &&& next.queue.len() == m.queue.len()
                    &&& tally(next.queue, f) == tally(m.queue, f) - f(p) + f(q)
                },
            }
        }),
{
    if m.queue.len() > 0 {
        lemma_chosen_in_queue(m);
        let i = m.chosen();
        let (queue, result) = served(m.queue, i, m.kind);
        match result {
            ResultView::Processing(q) => {
                lemma_tally_update(m.queue, i, q, f);
                match m.policy {
                    Policy::Fcfs => {},
                    Policy::Priority { .. } => {
                        lemma_tally_remove(queue, i, f);
                        lemma_tally_insert(queue.remove(i), 0, q, f);
                    },
                    Policy::RoundRobin { quantum, used } => {
                        if used + 1 >= quantum {
                            lemma_tally_remove(queue, 0, f);
                            lemma_tally_push(queue.drop_first(), q, f);
                        }
                    },
                }
            },
            ResultView::WrongKind => {},
            _ => {
                lemma_tally_remove(m.queue, i, f);
            },
        }
    }
}

/// What holds of every process in the queue, and of the process that a tick
/// reports as `Processing`, holds of every process in the queue after the
/// tick.
pub proof fn lemma_step_keeps(m: SchedModel, good: spec_fn(ProcessView) -> bool)
    requires
        forall|i: int| 0 <= i < m.queue.len() ==> good(#[trigger] m.queue[i]),
        m.step().1 matches ResultView::Processing(q) ==> good(q),
    ensures
        forall|j: int| 0 <= j < m.step().0.queue.len() ==> good(#[trigger] m.step().0.queue[j]),
{
    if m.queue.len() > 0 {
        lemma_chosen_in_queue(m);
    }
}

/// The ticks that a burst takes: as many as it has units left, and one if it
/// has none, since it takes a tick to find it complete.
pub open spec fn burst_demand(burst: Burst) -> int {
    if burst.remaining == 0 {
        1
    } else {
        burst.remaining as int
    }
}

/// `burst_demand` as a function value.
pub open spec fn burst_demand_fn() -> spec_fn(Burst) -> int {
    |burst: Burst| burst_demand(burst)
}

/// The ticks that a process takes until it is through: those of its bursts,
/// and one if it has none, since it takes a tick to find that out.
pub open spec fn demand(process: ProcessView) -> int {
    if process.bursts.len() == 0 {
        1
    } else {
        tally(process.bursts, burst_demand_fn())
    }
}

/// `demand` as a function value.
pub open spec fn demand_fn() -> spec_fn(ProcessView) -> int {
    |process: ProcessView| demand(process)
}

/// The ticks that the processes of `queue` take together.
pub open spec fn queue_demand(queue: Seq<ProcessView>) -> int {
    tally(queue, demand_fn())
}

/// A tick of work takes one tick off what a process demands; if it completes
/// the last burst, that was all the process demanded.
pub proof fn lemma_tick_meets_demand(p: ProcessView)
    requires
        p.bursts.len() > 0,
    ensures
        p.bursts[0].remaining >= 2 ==> demand(p.ticked()) == demand(p) - 1,
        p.bursts[0].remaining <= 1 && p.bursts.len() > 1 ==> demand(p.ticked().advanced())
            == demand(p) - 1,
        p.bursts[0].remaining <= 1 && p.bursts.len() == 1 ==> demand(p) == 1,
        demand(p) >= 1,
{
    let f = burst_demand_fn();
    if p.bursts[0].remaining >= 2 {
        lemma_tally_update(p.bursts, 0, p.ticked().bursts[0], f);
    } else {
        assert(p.ticked().advanced().bursts =~= p.bursts.remove(0));
        lemma_tally_remove(p.bursts, 0, f);
    }
    lemma_tally_at_least(p.bursts, f, 1);
}

/// The units that a burst has left, as a function value.
pub open spec fn remaining_fn() -> spec_fn(Burst) -> int {
    |burst: Burst| burst.remaining as int
}

/// The work that a process has left: the units that remain of its bursts.
pub open spec fn work(process: ProcessView) -> int {
    tally(process.bursts, remaining_fn())
}

/// `work` as a function value.
pub open spec fn work_fn() -> spec_fn(ProcessView) -> int {
    |process: ProcessView| work(process)
}

/// The work that the processes of `queue` have left together.
pub open spec fn queue_work(queue: Seq<ProcessView>) -> int {
    tally(queue, work_fn())
}

/// The work that a process has left if it goes by `pid`, and none otherwise.
pub open spec fn work_under(pid: int) -> spec_fn(ProcessView) -> int {
    |process: ProcessView|
        if process.pid == pid {
            work(process)
        } else {
            0
        }
}

/// The ticks of work that a result credits to the process `pid`: one if it
/// reports the process as `Processing` or `Finished`.
pub open spec fn credit(result: ResultView, pid: int) -> int {
    match result {
        ResultView::Processing(p) if p.pid == pid => 1,
        ResultView::Finished(p) if p.pid == pid => 1,
        _ => 0,
    }
}

/// The ticks of work that the entries of `trace` credit to the process
/// `pid`, both schedulers counted.
pub open spec fn credited(trace: Seq<TickView>, pid: int) -> int {
    tally(trace, |entry: TickView| credit(entry.cpu_process, pid) + credit(entry.io_process, pid))
}

/// Every burst of the process has work left.
pub open spec fn positive(process: ProcessView) -> bool {
    forall|i: int| 0 <= i < process.bursts.len() ==> (#[trigger] process.bursts[i]).remaining > 0
}

/// Every burst of every process of `queue` has work left.
pub open spec fn all_positive(queue: Seq<ProcessView>) -> bool {
    forall|i: int| 0 <= i < queue.len() ==> positive(#[trigger] queue[i])
}

impl SimModel {
    /// The work that the process `pid` has left, wherever in the system it
    /// is.
    pub open spec fn work_of(self, pid: int) -> int {
        tally(self.pending, work_under(pid)) + tally(self.cpu.queue, work_under(pid)) + tally(
            self.io.queue,
            work_under(pid),
        ) + tally(self.finished, work_under(pid))
    }

    /// The work that the processes not yet through have left together.
    pub open spec fn work(self) -> int {
        queue_work(self.pending) + queue_work(self.cpu.queue) + queue_work(self.io.queue)
    }

    /// Every process that is not yet through has a burst.
    pub open spec fn loaded(self) -> bool {
        &&& forall|i: int| 0 <= i < self.pending.len() ==> (#[trigger] self.pending[i]).bursts.len() > 0
        &&& forall|i: int|
            0 <= i < self.cpu.queue.len() ==> (#[trigger] self.cpu.queue[i]).bursts.len() > 0
        &&& forall|i: int|
            0 <= i < self.io.queue.len() ==> (#[trigger] self.io.queue[i]).bursts.len() > 0
    }

    /// Every burst of every process that is not yet through has work left.
    pub open spec fn positive(self) -> bool {
        &&& all_positive(self.pending)
        &&& all_positive(self.cpu.queue)
        &&& all_positive(self.io.queue)
    }
}

/// The work that a process has left is never negative.
pub proof fn lemma_work_is_natural(process: ProcessView, pid: int)
    ensures
        work(process) >= 0,
        work_under(pid)(process) >= 0,
{
    lemma_tally_at_least(process.bursts, remaining_fn(), 0);
}

/// The work that the processes of a queue have left is never negative.
pub proof fn lemma_queue_work_is_natural(queue: Seq<ProcessView>, pid: int)
    ensures
        tally(queue, work_under(pid)) >= 0,
{
    assert forall|i: int| 0 <= i < queue.len() implies work_under(pid)(#[trigger] queue[i]) >= 0 by {
        lemma_work_is_natural(queue[i], pid);
    }
    lemma_tally_at_least(queue, work_under(pid), 0);
}

/// A tick of work on a burst that has work left takes one unit off the work
/// of the process, and leaves every burst that stays with work left.
pub proof fn lemma_tick_does_work(p: ProcessView)
    requires
        p.bursts.len() > 0,
        positive(p),
    ensures
        p.bursts[0].remaining >= 2 ==> work(p.ticked()) == work(p) - 1 && positive(p.ticked()),
        p.bursts[0].remaining <= 1 ==> work(p.ticked().advanced()) == work(p) - 1 && positive(
            p.ticked().advanced(),
        ),
{
    let f = remaining_fn();
    if p.bursts[0].remaining >= 2 {
        lemma_tally_update(p.bursts, 0, p.ticked().bursts[0], f);
    } else {
        let rest = p.ticked().advanced().bursts;
        assert(rest =~= p.bursts.remove(0));
        lemma_tally_remove(p.bursts, 0, f);
    }
}

/// One tick of a scheduler whose processes have work left on every burst
/// takes from the work of the process `pid` what it credits to it, wherever
/// the tick sends the process, and leaves work on every burst.
pub proof fn lemma_step_does_work(m: SchedModel, pid: int)
    requires
        all_positive(m.queue),
    ensures
        tally(m.step().0.queue, work_under(pid)) + tally(
            to_queue(m.step().1, BurstKind::Cpu),
            work_under(pid),
        ) + tally(to_queue(m.step().1, BurstKind::Io), work_under(pid)) + tally(
            to_finished(m.step().1),
            work_under(pid),
        ) == tally(m.queue, work_under(pid)) - credit(m.step().1, pid),
        all_positive(m.step().0.queue),
        all_positive(to_queue(m.step().1, BurstKind::Cpu)),
        all_positive(to_queue(m.step().1, BurstKind::Io)),
{
    let f = work_under(pid);
    lemma_step_tally(m, f);
    let p = m.queue[m.chosen()];
    if m.queue.len() > 0 {
        lemma_chosen_in_queue(m);
    }
    match m.step().1 {
        ResultView::Finished(q) => {
            lemma_tick_does_work(p);
            lemma_tally_one(q, f);
        },
        ResultView::Processing(q) => {
            lemma_tick_does_work(p);
        },
        ResultView::NoBurstLeft(q) => {
            lemma_tally_one(q, f);
        },
        _ => {},
    }
}

/// Admission changes nothing of the work that a process has left, and leaves
/// work on every burst.
pub proof fn lemma_admitted_work(s: SimModel, pid: int)
    ensures
        s.admitted().work_of(pid) == s.work_of(pid),
        s.positive() ==> s.admitted().positive(),
{
    let a = s.admitted();
    let f = work_under(pid);
    lemma_admitted_moves(s);
    lemma_tally_concat(a.cpu.queue, a.pending, f);
    lemma_tally_concat(s.cpu.queue, s.pending, f);
    if s.positive() {
        assert forall|i: int| 0 <= i < a.cpu.queue.len() implies positive(#[trigger] a.cpu.queue[i]) by {
            assert(a.cpu.queue[i] == (a.cpu.queue + a.pending)[i]);
        }
        assert forall|i: int| 0 <= i < a.pending.len() implies positive(#[trigger] a.pending[i]) by {
            assert(a.pending[i] == (a.cpu.queue + a.pending)[a.cpu.queue.len() + i]);
        }
    }
}

/// In a system whose processes have work left on every burst, a tick takes
/// from the work of each process exactly one unit for each scheduler that
/// reports it as `Processing` or `Finished`. The work that is left is never
/// negative, and every burst that is left has work left.
pub proof fn lemma_tick_accounts(s: SimModel, pid: int)
    requires
        s.positive(),
    ensures
        s.ticked().work_of(pid) == s.work_of(pid) - credit(s.snapshot().cpu_process, pid) - credit(
            s.snapshot().io_process,
            pid,
        ),
        s.ticked().work_of(pid) >= 0,
        s.ticked().positive(),
{
    let a = s.admitted();
    let f = work_under(pid);
    lemma_admitted_work(s, pid);
    let (cpu, by_cpu) = a.cpu.step();
    let (io, by_io) = a.io.step();
    lemma_step_does_work(a.cpu, pid);
    lemma_step_does_work(a.io, pid);
    let next = s.ticked();
    lemma_tally_concat(cpu.queue, to_queue(by_cpu, BurstKind::Cpu), f);
    lemma_tally_concat(
        cpu.queue + to_queue(by_cpu, BurstKind::Cpu),
        to_queue(by_io, BurstKind::Cpu),
        f,
    );
    lemma_tally_concat(io.queue, to_queue(by_cpu, BurstKind::Io), f);
    lemma_tally_concat(io.queue + to_queue(by_cpu, BurstKind::Io), to_queue(by_io, BurstKind::Io), f);
    lemma_tally_concat(a.finished, to_finished(by_cpu), f);
    lemma_tally_concat(a.finished + to_finished(by_cpu), to_finished(by_io), f);
    lemma_queue_work_is_natural(next.pending, pid);
    lemma_queue_work_is_natural(next.cpu.queue, pid);
    lemma_queue_work_is_natural(next.io.queue, pid);
    lemma_queue_work_is_natural(next.finished, pid);
}

/// Over any number of ticks of a system whose processes have work left on
/// every burst, the work of each process goes down by exactly the number of
/// times that a scheduler reports it as `Processing` or `Finished`, and is
/// never negative.
pub proof fn lemma_run_accounts(start: SimModel, n: nat, pid: int)
    requires
        start.positive(),
    ensures
        start.after(n).work_of(pid) == start.work_of(pid) - credited(start.trace(n), pid),
        start.after(n).work_of(pid) >= 0,
        credited(start.trace(n), pid) >= 0,
        start.after(n).positive(),
    decreases n,
{
    let per_entry = |entry: TickView| credit(entry.cpu_process, pid) + credit(entry.io_process, pid);
    if n == 0 {
        lemma_queue_work_is_natural(start.pending, pid);
        lemma_queue_work_is_natural(start.cpu.queue, pid);
        lemma_queue_work_is_natural(start.io.queue, pid);
        lemma_queue_work_is_natural(start.finished, pid);
    } else {
        let earlier = (n - 1) as nat;
        lemma_run_accounts(start, earlier, pid);
        lemma_tick_accounts(start.after(earlier), pid);
        lemma_trace_extends(start, earlier);
        lemma_tally_push(start.trace(earlier), start.after(earlier).snapshot(), per_entry);
    }
}

/// A process that has a burst, and work left on every burst, demands as many
/// ticks as it has work left.
pub proof fn lemma_demand_is_work(process: ProcessView)
    requires
        process.bursts.len() > 0,
        positive(process),
    ensures
        demand(process) == work(process),
{
    lemma_tally_same(process.bursts, burst_demand_fn(), remaining_fn());
}

/// Processes that each have a burst, and work left on every burst, demand
/// together as many ticks as they have work left.
pub proof fn lemma_queue_demand_is_work(queue: Seq<ProcessView>)
    requires
        all_positive(queue),
        forall|i: int| 0 <= i < queue.len() ==> (#[trigger] queue[i]).bursts.len() > 0,
    ensures
        queue_demand(queue) == queue_work(queue),
{
    assert forall|i: int| 0 <= i < queue.len() implies demand_fn()(#[trigger] queue[i]) == work_fn()(
        queue[i],
    ) by {
        lemma_demand_is_work(queue[i]);
    }
    lemma_tally_same(queue, demand_fn(), work_fn());
}

/// No process of `queue` has a burst.
pub open spec fn all_through(queue: Seq<ProcessView>) -> bool {
    forall|i: int| 0 <= i < queue.len() ==> (#[trigger] queue[i]).bursts.len() == 0
}

/// Processes without bursts have no work left.
pub proof fn lemma_through_is_no_work(queue: Seq<ProcessView>, pid: int)
    requires
        all_through(queue),
    ensures
        tally(queue, work_under(pid)) == 0,
{
    let f = work_under(pid);
    lemma_tally_at_least(queue, f, 0);
    lemma_tally_at_most(queue, f, 0);
}

/// A tick sends to the finished list only processes without bursts.
pub proof fn lemma_tick_finishes_the_through(s: SimModel)
    requires
        all_through(s.finished),
    ensures
        all_through(s.ticked().finished),
{
    lemma_admitted_moves(s);
}

/// Over a whole run, each process is credited exactly the work that it came
/// with. The run is one of a system whose processes have work left on every
/// burst and in which no process with a burst counts as finished.
pub proof fn lemma_run_credits_all_work(start: SimModel, ticks: nat, pid: int)
    requires
        start.positive(),
        all_through(start.finished),
        start.ends_after(ticks),
    ensures
        credited(start.trace(ticks), pid) == start.work_of(pid),
{
    lemma_run_accounts(start, ticks, pid);
    lemma_run_finishes_the_through(start, ticks);
    let end = start.after(ticks);
    lemma_through_is_no_work(end.finished, pid);
}

/// However long the system runs, only processes without bursts join the
/// finished list.
pub proof fn lemma_run_finishes_the_through(start: SimModel, n: nat)
    requires
        all_through(start.finished),
    ensures
        all_through(start.after(n).finished),
    decreases n,
{
    if n > 0 {
        lemma_run_finishes_the_through(start, (n - 1) as nat);
        lemma_tick_finishes_the_through(start.after((n - 1) as nat));
    }
}

} // verus!
