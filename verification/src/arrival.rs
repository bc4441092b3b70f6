//! Putting processes in the order of their arrival.

use vstd::prelude::*;
use crate::process::{views, Process, ProcessView};
use crate::sums::{lemma_tally_push, tally};

verus! {

/// `sorted` with `process` put behind every process that arrives no later
/// than it does.
pub open spec fn placed(sorted: Seq<ProcessView>, process: ProcessView) -> Seq<ProcessView>
    decreases sorted.len(),
{
    if sorted.len() > 0 && sorted.last().arrival > process.arrival {
        placed(sorted.drop_last(), process).push(sorted.last())
    } else {
        sorted.push(process)
    }
}

/// The processes in the order of their arrival times; those that arrive at
/// the same time keep their order.
pub open spec fn by_arrival(processes: Seq<ProcessView>) -> Seq<ProcessView>
    decreases processes.len(),
{
    if processes.len() == 0 {
        Seq::empty()
    } else {
        placed(by_arrival(processes.drop_last()), processes.last())
    }
}

/// No process stands before one that arrives earlier.
pub open spec fn in_arrival_order(processes: Seq<ProcessView>) -> bool {
    forall|i: int, j: int|
        0 <= i <= j < processes.len() ==> (#[trigger] processes[i]).arrival <= (#[trigger] processes[j]).arrival
}

/// `placed` puts the process at the position behind which every process
/// arrives later and before which none does.
pub proof fn lemma_placed_at(sorted: Seq<ProcessView>, process: ProcessView, at: int)
    requires
        0 <= at <= sorted.len(),
        forall|j: int| at <= j < sorted.len() ==> (#[trigger] sorted[j]).arrival > process.arrival,
        at > 0 ==> sorted[at - 1].arrival <= process.arrival,
    ensures
        placed(sorted, process) == sorted.insert(at, process),
    decreases sorted.len(),
{
    if sorted.len() > 0 && sorted.last().arrival > process.arrival {
        let rest = sorted.drop_last();
        lemma_placed_at(rest, process, at);
    }
}

/// To place a process in a list that is in arrival order leaves the list in
/// arrival order, one process longer, with every sum over it greater by the
/// term of that process.
pub proof fn lemma_placed(sorted: Seq<ProcessView>, process: ProcessView, f: spec_fn(ProcessView) -> int)
    requires
        in_arrival_order(sorted),
    ensures
        in_arrival_order(placed(sorted, process)),
        placed(sorted, process).len() == sorted.len() + 1,
        tally(placed(sorted, process), f) == tally(sorted, f) + f(process),
    decreases sorted.len(),
{
    if sorted.len() > 0 && sorted.last().arrival > process.arrival {
        let rest = sorted.drop_last();
        lemma_placed(rest, process, f);
        lemma_tally_push(placed(rest, process), sorted.last(), f);
        assert(sorted =~= rest.push(sorted.last()));
        lemma_tally_push(rest, sorted.last(), f);
    } else {
        lemma_tally_push(sorted, process, f);
    }
}

/// `by_arrival` puts the processes in arrival order, and loses and makes
/// none: every sum over the processes is the same before and after.
pub proof fn lemma_by_arrival(processes: Seq<ProcessView>, f: spec_fn(ProcessView) -> int)
    ensures
        in_arrival_order(by_arrival(processes)),
        by_arrival(processes).len() == processes.len(),
        tally(by_arrival(processes), f) == tally(processes, f),
    decreases processes.len(),
{
    if processes.len() > 0 {
        let rest = processes.drop_last();
        lemma_by_arrival(rest, f);
        lemma_placed(by_arrival(rest), processes.last(), f);
        assert(processes =~= rest.push(processes.last()));
        lemma_tally_push(rest, processes.last(), f);
    }
}

/// Puts `processes` in the order of their arrival times. Processes that
/// arrive at the same time keep their order.
pub fn sort_by_arrival(processes: &mut Vec<Process>)
    ensures
        views(final(processes)@) == by_arrival(views(old(processes)@)),
{
    let ghost given = views(processes@);
    let mut next: usize = 0;
    assert(views(processes@) =~= by_arrival(given.take(0)) + given.skip(0));
    while next < processes.len()
        invariant
            next <= processes.len(),
            processes.len() == given.len(),
            views(processes@) == by_arrival(given.take(next as int)) + given.skip(next as int),
            by_arrival(given.take(next as int)).len() == next,
        decreases processes.len() - next,
    {
        let ghost sorted = by_arrival(given.take(next as int));
        let ghost before = views(processes@);
        let ghost moving = given[next as int];
        let mut at: usize = next;
        while at > 0 && processes[at - 1].arrival > processes[next].arrival
            invariant
                at <= next < processes.len(),
                views(processes@) == before,
                before == sorted + given.skip(next as int),
                before[next as int] == moving,
                sorted.len() == next,
                forall|j: int| at <= j < next ==> (#[trigger] sorted[j]).arrival > moving.arrival,
            decreases at,
        {
            assert(before[at - 1] == sorted[at - 1]);
            at -= 1;
        }
        proof {
            if at > 0 {
                assert(before[at - 1] == sorted[at - 1]);
            }
        }
        let process = processes.remove(next);
        processes.insert(at, process);
        proof {
            assert(views(processes@) =~= before.remove(next as int).insert(at as int, moving));
            lemma_placed_at(sorted, moving, at as int);
            assert(given.take(next + 1).drop_last() =~= given.take(next as int));
        }
        next += 1;
    }
}

} // verus!
