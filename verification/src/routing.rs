//! Where processes go: from queue to queue and to the finished list, none
//! lost and none made.

use vstd::prelude::*;
use crate::bounds::lemma_admitted_orderly;
use crate::process::{BurstKind, ProcessView};
use crate::scheduler::{lemma_chosen_in_queue, ResultView, SchedModel};
use crate::simulation::{lemma_admitted_moves, to_finished, to_queue, SimModel};
use crate::sums::{
    lemma_tally_at_least, lemma_tally_concat, lemma_tally_one, lemma_tally_remove, tally,
};
use crate::work::{lemma_step_keeps, lemma_step_tally};

verus! {

/// One for a process that goes by `pid`, nought for any other.
pub open spec fn named(pid: int) -> spec_fn(ProcessView) -> int {
    |process: ProcessView|
        if process.pid == pid {
            1
        } else {
            0
        }
}

/// The result carries a process that goes by `pid`.
pub open spec fn reports(result: ResultView, pid: int) -> bool {
    match result {
        ResultView::Processing(p) => p.pid == pid,
        ResultView::Finished(p) => p.pid == pid,
        ResultView::NoBurstLeft(p) => p.pid == pid,
        _ => false,
    }
}

impl SimModel {
    /// The number of processes in the system that go by `pid`: those still
    /// to arrive, those in the two queues and those that are through.
    pub open spec fn census(self, pid: int) -> int {
        tally(self.pending, named(pid)) + tally(self.cpu.queue, named(pid)) + tally(
            self.io.queue,
            named(pid),
        ) + tally(self.finished, named(pid))
    }

    /// The processes that the next tick sends to the scheduler for `kind`.
    pub open spec fn sent(self, kind: BurstKind) -> Seq<ProcessView> {
        to_queue(self.admitted().cpu.step().1, kind) + to_queue(self.admitted().io.step().1, kind)
    }
}

/// A process that completes a burst and has another goes to the back of the
/// queue of the scheduler that serves the kind of its next burst, and
/// nowhere else: not to the other scheduler and not to the finished list.
/// Nothing else joins a queue in a tick.
pub proof fn lemma_routing(s: SimModel)
    requires
        s.orderly(),
    ensures
        s.ticked().cpu.kind == BurstKind::Cpu,
        s.ticked().io.kind == BurstKind::Io,
        s.ticked().cpu.queue == s.admitted().cpu.step().0.queue + s.sent(BurstKind::Cpu),
        s.ticked().io.queue == s.admitted().io.step().0.queue + s.sent(BurstKind::Io),
        forall|result: ResultView, p: ProcessView|
            (result == s.snapshot().cpu_process || result == s.snapshot().io_process) && result
                == ResultView::Finished(p) && p.bursts.len() > 0 ==> {
                &&& #[trigger] to_queue(result, p.bursts[0].kind) == seq![p]
                &&& to_queue(result, p.bursts[0].kind.flipped()) == Seq::<ProcessView>::empty()
                &&& to_finished(result) == Seq::<ProcessView>::empty()
                &&& s.sent(p.bursts[0].kind).contains(p)
            },
        forall|kind: BurstKind, i: int|
            0 <= i < s.sent(kind).len() ==> {
                &&& (#[trigger] s.sent(kind)[i]).bursts.len() > 0
                &&& s.sent(kind)[i].bursts[0].kind == kind
                &&& (s.snapshot().cpu_process == ResultView::Finished(s.sent(kind)[i])
                    || s.snapshot().io_process == ResultView::Finished(s.sent(kind)[i]))
            },
{
    lemma_admitted_orderly(s);
    let by_cpu = s.admitted().cpu.step().1;
    assert forall|result: ResultView, p: ProcessView|
        (result == s.snapshot().cpu_process || result == s.snapshot().io_process) && result
            == ResultView::Finished(p) && p.bursts.len() > 0 implies {
        &&& #[trigger] to_queue(result, p.bursts[0].kind) == seq![p]
        &&& to_queue(result, p.bursts[0].kind.flipped()) == Seq::<ProcessView>::empty()
        &&& to_finished(result) == Seq::<ProcessView>::empty()
        &&& s.sent(p.bursts[0].kind).contains(p)
    } by {
        let kind = p.bursts[0].kind;
        if result == by_cpu {
            assert(s.sent(kind)[0] == p);
        } else {
            assert(s.sent(kind)[to_queue(by_cpu, kind).len() as int] == p);
        }
    }
}

/// The number of processes of a queue that go by `pid` is never negative,
/// and counts each of them.
pub proof fn lemma_named_counts(queue: Seq<ProcessView>, pid: int)
    ensures
        tally(queue, named(pid)) >= 0,
        forall|i: int|
            0 <= i < queue.len() && (#[trigger] queue[i]).pid == pid ==> tally(queue, named(pid)) >= 1,
{
    let f = named(pid);
    lemma_tally_at_least(queue, f, 0);
    assert forall|i: int| 0 <= i < queue.len() && (#[trigger] queue[i]).pid == pid implies tally(
        queue,
        f,
    ) >= 1 by {
        lemma_tally_remove(queue, i, f);
        lemma_tally_at_least(queue.remove(i), f, 0);
    }
}

/// A tick of a scheduler loses no process and makes none: each process that
/// was in the queue is in it afterwards or is the one that the tick sends to
/// a queue or to the finished list.
pub proof fn lemma_step_conserves(m: SchedModel, pid: int)
    ensures
        tally(m.step().0.queue, named(pid)) + tally(to_queue(m.step().1, BurstKind::Cpu), named(pid))
            + tally(to_queue(m.step().1, BurstKind::Io), named(pid)) + tally(
            to_finished(m.step().1),
            named(pid),
        ) == tally(m.queue, named(pid)),
        reports(m.step().1, pid) ==> tally(m.queue, named(pid)) >= 1,
{
    let f = named(pid);
    lemma_step_tally(m, f);
    lemma_named_counts(m.queue, pid);
    if m.queue.len() > 0 {
        lemma_chosen_in_queue(m);
    }
    match m.step().1 {
        ResultView::Finished(q) => {
            lemma_tally_one(q, f);
        },
        ResultView::NoBurstLeft(q) => {
            lemma_tally_one(q, f);
        },
        _ => {},
    }
}

/// A tick loses no process and makes none: as many processes go by `pid`
/// after it as before.
pub proof fn lemma_tick_conserves(s: SimModel, pid: int)
    ensures
        s.ticked().census(pid) == s.census(pid),
{
    let a = s.admitted();
    let f = named(pid);
    lemma_admitted_moves(s);
    lemma_tally_concat(a.cpu.queue, a.pending, f);
    lemma_tally_concat(s.cpu.queue, s.pending, f);
    let (cpu, by_cpu) = a.cpu.step();
    let (io, by_io) = a.io.step();
    lemma_step_conserves(a.cpu, pid);
    lemma_step_conserves(a.io, pid);
    lemma_tally_concat(cpu.queue, to_queue(by_cpu, BurstKind::Cpu), f);
    lemma_tally_concat(
        cpu.queue + to_queue(by_cpu, BurstKind::Cpu),
        to_queue(by_io, BurstKind::Cpu),
        f,
    );
    lemma_tally_concat(io.queue, to_queue(by_cpu, BurstKind::Io), f);
    lemma_tally_concat(io.queue + to_queue(by_cpu, BurstKind::Io), to_queue(by_io, BurstKind::Io), f);
    lemma_tally_concat(a.finished, to_finished(by_cpu), f);
    lemma_tally_concat(a.finished + to_finished(by_cpu), to_finished(by_io), f);
}

/// However long the system runs, as many processes go by `pid` as at the
/// start.
pub proof fn lemma_run_conserves(start: SimModel, n: nat, pid: int)
    ensures
        start.after(n).census(pid) == start.census(pid),
    decreases n,
{
    if n > 0 {
        lemma_run_conserves(start, (n - 1) as nat, pid);
        lemma_tick_conserves(start.after((n - 1) as nat), pid);
    }
}

/// When a run is over, every process of the system is in the finished list:
/// as many go by `pid` there as went by it anywhere at the start.
pub proof fn lemma_all_finish(start: SimModel, ticks: nat, pid: int)
    requires
        start.ends_after(ticks),
    ensures
        tally(start.after(ticks).finished, named(pid)) == start.census(pid),
{
    lemma_run_conserves(start, ticks, pid);
}

/// Where one process at most goes by `pid`, the two schedulers do not both
/// report it in one tick: a process that completes a burst on one scheduler
/// is not worked on by the other until the next tick.
pub proof fn lemma_reported_once(s: SimModel, pid: int)
    requires
        s.census(pid) <= 1,
    ensures
        !(reports(s.snapshot().cpu_process, pid) && reports(s.snapshot().io_process, pid)),
{
    let a = s.admitted();
    let f = named(pid);
    lemma_admitted_moves(s);
    lemma_tally_concat(a.cpu.queue, a.pending, f);
    lemma_tally_concat(s.cpu.queue, s.pending, f);
    lemma_step_conserves(a.cpu, pid);
    lemma_step_conserves(a.io, pid);
    lemma_named_counts(a.pending, pid);
    lemma_named_counts(a.finished, pid);
}

/// Every process of `queue` has bursts of the two kinds in turn.
pub open spec fn all_alternating(queue: Seq<ProcessView>) -> bool {
    forall|i: int| 0 <= i < queue.len() ==> (#[trigger] queue[i]).alternating()
}

/// Work on a process whose bursts are of the two kinds in turn leaves them
/// so, and when a burst is complete the next is of the other kind.
pub proof fn lemma_alternation_is_kept(p: ProcessView)
    requires
        p.alternating(),
        p.bursts.len() > 0,
    ensures
        p.ticked().alternating(),
        p.ticked().advanced().alternating(),
        p.bursts.len() > 1 ==> p.ticked().advanced().bursts[0].kind == p.bursts[0].kind.flipped(),
{
}

/// Where the bursts of every process are of the two kinds in turn, a process
/// that completes a burst on one scheduler and has another goes to the
/// other scheduler: from CPU to IO and from IO to CPU. A tick leaves the
/// bursts of every process of the two kinds in turn.
pub proof fn lemma_alternating_routing(s: SimModel)
    requires
        s.orderly(),
        all_alternating(s.pending),
        all_alternating(s.cpu.queue),
        all_alternating(s.io.queue),
    ensures
        s.snapshot().cpu_process matches ResultView::Finished(p) ==> to_queue(
            s.snapshot().cpu_process,
            BurstKind::Cpu,
        ) == Seq::<ProcessView>::empty(),
        s.snapshot().io_process matches ResultView::Finished(p) ==> to_queue(
            s.snapshot().io_process,
            BurstKind::Io,
        ) == Seq::<ProcessView>::empty(),
        all_alternating(s.ticked().pending),
        all_alternating(s.ticked().cpu.queue),
        all_alternating(s.ticked().io.queue),
{
    let a = s.admitted();
    lemma_admitted_moves(s);
    assert forall|i: int| 0 <= i < a.cpu.queue.len() implies (#[trigger] a.cpu.queue[i]).alternating() by {
        assert(a.cpu.queue[i] == (s.cpu.queue + s.pending)[i]);
    }
    assert forall|i: int| 0 <= i < a.pending.len() implies (#[trigger] a.pending[i]).alternating() by {
        assert(a.pending[i] == (s.cpu.queue + s.pending)[a.cpu.queue.len() + i]);
    }
    if a.cpu.queue.len() > 0 {
        lemma_chosen_in_queue(a.cpu);
        let p = a.cpu.queue[a.cpu.chosen()];
        if p.bursts.len() > 0 {
            lemma_alternation_is_kept(p);
        }
    }
    if a.io.queue.len() > 0 {
        lemma_chosen_in_queue(a.io);
        let p = a.io.queue[a.io.chosen()];
        if p.bursts.len() > 0 {
            lemma_alternation_is_kept(p);
        }
    }
    let good = |p: ProcessView| p.alternating();
    lemma_step_keeps(a.cpu, good);
    lemma_step_keeps(a.io, good);
}

/// No two processes of `queue` go by the same pid.
pub open spec fn distinct_pids(queue: Seq<ProcessView>) -> bool {
    forall|i: int, j: int|
        0 <= i < j < queue.len() ==> (#[trigger] queue[i]).pid != (#[trigger] queue[j]).pid
}

/// Among processes of which no two go by the same pid, one at most goes by
/// `pid`.
pub proof fn lemma_distinct_pids_count(queue: Seq<ProcessView>, pid: int)
    requires
        distinct_pids(queue),
    ensures
        tally(queue, named(pid)) <= 1,
    decreases queue.len(),
{
    let f = named(pid);
    if queue.len() == 0 {
    } else {
        let rest = queue.drop_last();
        assert(queue =~= rest.push(queue.last()));
        crate::sums::lemma_tally_push(rest, queue.last(), f);
        lemma_distinct_pids_count(rest, pid);
        if queue.last().pid == pid {
            crate::sums::lemma_tally_at_most(rest, f, 0);
        }
    }
}

/// In a run of a system in which one process at most goes by `pid`, no tick
/// has both schedulers report that process.
pub proof fn lemma_never_reported_twice(start: SimModel, n: nat, pid: int)
    requires
        start.census(pid) <= 1,
    ensures
        !(reports(start.after(n).snapshot().cpu_process, pid) && reports(
            start.after(n).snapshot().io_process,
            pid,
        )),
{
    lemma_run_conserves(start, n, pid);
    lemma_reported_once(start.after(n), pid);
}

} // verus!
