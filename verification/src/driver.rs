//! From a list of processes and a choice of policy to the trace of a run.

use vstd::prelude::*;
use std::collections::VecDeque;
use crate::arrival::{by_arrival, lemma_by_arrival, sort_by_arrival};
use crate::routing::{distinct_pids, lemma_distinct_pids_count, named};
use crate::bounds::{
    latest, lemma_can_run, lemma_latest, lemma_queue_demand, lemma_run_ends, serves,
};
use crate::log::Log;
use crate::process::{views, BurstKind, Process, ProcessView};
use crate::scheduler::fcfs::FCFS;
use crate::scheduler::priority::Priority;
use crate::scheduler::round_robin::RoundRobin;
use crate::scheduler::{Policy, SchedModel};
use crate::simulation::{lemma_end_is_unique, start_sim, SimModel};
use crate::sums::{lemma_tally_at_least, lemma_tally_concat, lemma_tally_push, tally};
use crate::work::{burst_demand_fn, demand, demand_fn, queue_demand};

verus! {

/// The policy of the CPU scheduler.
#[derive(Debug, Clone, Copy, PartialEq, Eq, Structural)]
pub enum Algorithm {
    Fcfs,
    Priority,
    RoundRobin { quantum: i32 },
}

/// What follows from the number that the user chose from the menu.
#[derive(Debug, Clone, Copy, PartialEq, Eq, Structural)]
pub enum Selection {
    /// The choice is complete.
    Ready(Algorithm),
    /// Round robin was chosen: the quantum is to be asked for.
    AskQuantum,
    /// The number is not on the menu.
    Unsupported,
}

/// Why a simulation cannot be run.
#[derive(Debug, Clone, Copy, PartialEq, Eq, Structural)]
pub enum SimError {
    /// The quantum of round robin is not positive.
    Quantum,
    /// A process does not start with a CPU burst.
    WrongKind,
    /// The run may last longer than the clock can count.
    ClockOverflow,
}

/// Reads the menu: 1 is first come first served, 2 is priority, 3 is round
/// robin, which needs a quantum.
pub fn on_choice(choice: i32) -> (selection: Selection)
    ensures
        selection == if choice == 1 {
            Selection::Ready(Algorithm::Fcfs)
        } else if choice == 2 {
            Selection::Ready(Algorithm::Priority)
        } else if choice == 3 {
            Selection::AskQuantum
        } else {
            Selection::Unsupported
        },
{
    if choice == 1 {
        Selection::Ready(Algorithm::Fcfs)
    } else if choice == 2 {
        Selection::Ready(Algorithm::Priority)
    } else if choice == 3 {
        Selection::AskQuantum
    } else {
        Selection::Unsupported
    }
}

/// Completes the choice of round robin with the quantum that the user gave,
/// which has to be positive.
pub fn on_quantum(quantum: i32) -> (algorithm: Option<Algorithm>)
    ensures
        algorithm == if quantum > 0 {
            Some(Algorithm::RoundRobin { quantum })
        } else {
            None
        },
{
    if quantum > 0 {
        Some(Algorithm::RoundRobin { quantum })
    } else {
        None
    }
}

impl Algorithm {
    /// The CPU scheduler of this policy, with nothing in its queue.
    pub open spec fn cpu_model(self) -> SchedModel {
        SchedModel {
            policy: match self {
                Algorithm::Fcfs => Policy::Fcfs,
                Algorithm::Priority => Policy::Priority { running: false },
                Algorithm::RoundRobin { quantum } => Policy::RoundRobin {
                    quantum: quantum as int,
                    used: 0,
                },
            },
            kind: BurstKind::Cpu,
            queue: Seq::empty(),
        }
    }
}

/// The IO scheduler: first come, first served, with nothing in its queue.
pub open spec fn io_model() -> SchedModel {
    SchedModel { policy: Policy::Fcfs, kind: BurstKind::Io, queue: Seq::empty() }
}

/// The system that a simulation of `processes` under `algorithm` starts
/// from: tick 0, the processes in the order of their arrival, both queues
/// empty.
pub open spec fn start_of(processes: Seq<ProcessView>, algorithm: Algorithm) -> SimModel {
    SimModel::initial(by_arrival(processes), algorithm.cpu_model(), io_model())
}

/// Every process is one for a scheduler of `kind`.
pub open spec fn all_serve(processes: Seq<ProcessView>, kind: BurstKind) -> bool {
    forall|i: int| 0 <= i < processes.len() ==> serves(#[trigger] processes[i], kind)
}

/// Why a simulation of `processes` under `algorithm` is not run, if it is
/// not.
pub open spec fn rejection(processes: Seq<ProcessView>, algorithm: Algorithm) -> Option<SimError> {
    let start = start_of(processes, algorithm);
    if algorithm matches Algorithm::RoundRobin { quantum } && quantum <= 0 {
        Some(SimError::Quantum)
    } else if !all_serve(start.pending, BurstKind::Cpu) {
        Some(SimError::WrongKind)
    } else if start.deadline() > i32::MAX {
        Some(SimError::ClockOverflow)
    } else {
        None
    }
}

/// True when every process starts with a CPU burst or has no burst.
pub fn all_start_on_cpu(processes: &Vec<Process>) -> (yes: bool)
    ensures
        yes == all_serve(views(processes@), BurstKind::Cpu),
{
    let mut i: usize = 0;
    while i < processes.len()
        invariant
            i <= processes.len(),
            forall|j: int| 0 <= j < i ==> serves(#[trigger] views(processes@)[j], BurstKind::Cpu),
        decreases processes.len() - i,
    {
        if processes[i].bursts.len() > 0 && processes[i].bursts[0].kind != BurstKind::Cpu {
            assert(!serves(views(processes@)[i as int], BurstKind::Cpu));
            return false;
        }
        i += 1;
    }
    true
}

/// The ticks that `process` takes until it is through, if they are `limit`
/// at most.
pub fn demand_within(process: &Process, limit: u32) -> (ticks: Option<u32>)
    ensures
        match ticks {
            Some(ticks) => ticks == demand(process@) && ticks <= limit,
            None => demand(process@) > limit,
        },
{
    let f = Ghost(burst_demand_fn());
    if process.bursts.len() == 0 {
        return if limit >= 1 {
            Some(1)
        } else {
            None
        };
    }
    let mut sum: u32 = 0;
    let mut i: usize = 0;
    while i < process.bursts.len()
        invariant
            i <= process.bursts.len(),
            f@ == burst_demand_fn(),
            sum == tally(process.bursts@.take(i as int), f@),
            sum <= limit,
        decreases process.bursts.len() - i,
    {
        let remaining = process.bursts[i].remaining;
        let cost = if remaining == 0 {
            1
        } else {
            remaining
        };
        proof {
            assert(process.bursts@.take(i + 1) =~= process.bursts@.take(i as int).push(
                process.bursts@[i as int],
            ));
            lemma_tally_push(process.bursts@.take(i as int), process.bursts@[i as int], f@);
        }
        if cost > limit - sum {
            proof {
                let done = process.bursts@.take(i + 1);
                let rest = process.bursts@.skip(i + 1);
                assert(process.bursts@ =~= done + rest);
                lemma_tally_concat(done, rest, f@);
                lemma_tally_at_least(rest, f@, 0);
            }
            return None;
        }
        sum = sum + cost;
        i += 1;
    }
    assert(process.bursts@.take(i as int) =~= process.bursts@);
    Some(sum)
}

/// The time by which every process has arrived, and 0 at least.
pub fn latest_arrival(processes: &Vec<Process>) -> (time: i32)
    ensures
        time == latest(views(processes@), 0),
{
    let mut time: i32 = 0;
    let mut i: usize = 0;
    while i < processes.len()
        invariant
            i <= processes.len(),
            time == latest(views(processes@).take(i as int), 0),
        decreases processes.len() - i,
    {
        assert(views(processes@).take(i + 1).drop_last() =~= views(processes@).take(i as int));
        if processes[i].arrival > time {
            time = processes[i].arrival;
        }
        i += 1;
    }
    assert(views(processes@).take(i as int) =~= views(processes@));
    time
}

/// True when the clock can count to the time by which a run of `processes`
/// from tick 0 is over at the latest.
pub fn fits_clock(processes: &Vec<Process>) -> (yes: bool)
    ensures
        yes == (latest(views(processes@), 0) + queue_demand(views(processes@)) <= i32::MAX),
{
    let f = Ghost(demand_fn());
    let horizon = latest_arrival(processes);
    proof {
        lemma_latest(views(processes@), 0);
    }
    let limit: u32 = (i32::MAX - horizon) as u32;
    let mut sum: u32 = 0;
    let mut i: usize = 0;
    while i < processes.len()
        invariant
            i <= processes.len(),
            f@ == demand_fn(),
            sum == tally(views(processes@).take(i as int), f@),
            sum <= limit,
            limit == i32::MAX - latest(views(processes@), 0),
        decreases processes.len() - i,
    {
        proof {
            assert(views(processes@).take(i + 1) =~= views(processes@).take(i as int).push(
                processes[i as int]@,
            ));
            lemma_tally_push(views(processes@).take(i as int), processes[i as int]@, f@);
        }
        match demand_within(&processes[i], limit - sum) {
            Some(ticks) => {
                sum = sum + ticks;
            },
            None => {
                proof {
                    let done = views(processes@).take(i + 1);
                    let rest = views(processes@).skip(i + 1);
                    assert(views(processes@) =~= done + rest);
                    lemma_tally_concat(done, rest, f@);
                    lemma_queue_demand(rest);
                }
                return false;
            },
        }
        i += 1;
    }
    assert(views(processes@).take(i as int) =~= views(processes@));
    true
}

/// The processes of `processes` as a queue, in the same order.
pub fn into_queue(processes: Vec<Process>) -> (queue: VecDeque<Process>)
    ensures
        views(queue@) == views(processes@),
{
    let mut rest = processes;
    let mut queue: VecDeque<Process> = VecDeque::new();
    while rest.len() > 0
        invariant
            rest@ + queue@ == processes@,
        decreases rest.len(),
    {
        let process = rest.pop().unwrap();
        queue.push_front(process);
    }
    queue
}

/// Simulates `processes` under `algorithm` on the CPU and first come, first
/// served on IO: puts the processes in the order of their arrival and runs
/// the system from tick 0 until nothing is left to run or to arrive.
/// Returns the record of every tick, or why the simulation is not run. The
/// record is no longer than the deadline of the system that the run starts
/// from; without processes it has the entry of the one idle tick.
pub fn simulate(processes: Vec<Process>, algorithm: Algorithm) -> (result: Result<Log, SimError>)
    ensures
        match result {
            Ok(log) => {
                &&& rejection(views(processes@), algorithm) is None
                &&& start_of(views(processes@), algorithm).ends_after(log@.len())
                &&& log@ == start_of(views(processes@), algorithm).trace(log@.len())
                &&& log@.len() <= if processes.len() == 0 {
                    1
                } else {
                    start_of(views(processes@), algorithm).deadline()
                }
            },
            Err(error) => rejection(views(processes@), algorithm) == Some(error),
        },
{
    let ghost start = start_of(views(processes@), algorithm);
    let mut processes = processes;
    sort_by_arrival(&mut processes);
    if let Algorithm::RoundRobin { quantum } = algorithm {
        if quantum <= 0 {
            return Err(SimError::Quantum);
        }
    }
    if !all_start_on_cpu(&processes) {
        return Err(SimError::WrongKind);
    }
    if !fits_clock(&processes) {
        return Err(SimError::ClockOverflow);
    }
    let pending = into_queue(processes);
    let io_sched = FCFS::new(Vec::new(), BurstKind::Io);
    assert(views(Seq::<Process>::empty()) =~= Seq::<ProcessView>::empty());
    proof {
        lemma_can_run(start);
        let ticks = lemma_run_ends(start);
        assert forall|n: nat| start.ends_after(n) implies n == ticks by {
            lemma_end_is_unique(start, n, ticks);
        }
    }
    let log = match algorithm {
        Algorithm::Fcfs => start_sim(pending, FCFS::new(Vec::new(), BurstKind::Cpu), io_sched),
        Algorithm::Priority => start_sim(pending, Priority::new(Vec::new(), BurstKind::Cpu), io_sched),
        Algorithm::RoundRobin { quantum } => start_sim(
            pending,
            RoundRobin::new(Vec::new(), BurstKind::Cpu, quantum),
            io_sched,
        ),
    };
    Ok(log)
}

/// A simulation of processes of which no two go by the same pid starts from
/// a system in which one process at most goes by any pid.
pub proof fn lemma_start_has_one_of_each(processes: Seq<ProcessView>, algorithm: Algorithm, pid: int)
    requires
        distinct_pids(processes),
    ensures
        start_of(processes, algorithm).census(pid) <= 1,
{
    lemma_by_arrival(processes, named(pid));
    lemma_distinct_pids_count(processes, pid);
}

} // verus!
