//! The system as a whole: the clock, the arrival list, the two schedulers
//! and the loop that ticks them.

use vstd::prelude::*;
use std::collections::VecDeque;
use crate::log::{Log, TickEntry, TickView};
use crate::process::{views, BurstKind, Process, ProcessView};
use crate::scheduler::{ResultView, SchedModel, Scheduler, SchedulerResult};
use crate::system_state::SystemState;

verus! {

/// The processes that a result sends to the finished list: one that
/// completed its last burst, or one that had none.
pub open spec fn to_finished(result: ResultView) -> Seq<ProcessView> {
    match result {
        ResultView::Finished(p) if p.bursts.len() == 0 => seq![p],
        ResultView::NoBurstLeft(p) => seq![p],
        _ => Seq::empty(),
    }
}

/// The processes that a result sends to the scheduler for `kind`: one that
/// completed a burst and whose next burst is of that kind.
pub open spec fn to_queue(result: ResultView, kind: BurstKind) -> Seq<ProcessView> {
    match result {
        ResultView::Finished(p) if p.bursts.len() > 0 && p.bursts[0].kind == kind => seq![p],
        _ => Seq::empty(),
    }
}

/// The whole system as a mathematical value.
pub struct SimModel {
    /// The clock.
    pub time: int,
    /// The processes that have not arrived yet, next to arrive first.
    pub pending: Seq<ProcessView>,
    /// The CPU scheduler.
    pub cpu: SchedModel,
    /// The IO scheduler.
    pub io: SchedModel,
    /// The processes that have run all their bursts, oldest first.
    pub finished: Seq<ProcessView>,
}

impl SimModel {
    /// The system at tick 0, with nothing finished.
    pub open spec fn initial(pending: Seq<ProcessView>, cpu: SchedModel, io: SchedModel) -> SimModel {
        SimModel { time: 0, pending, cpu, io, finished: Seq::empty() }
    }

    /// The system once every process at the front of `pending` whose arrival
    /// time has come has joined the CPU queue.
    pub open spec fn admitted(self) -> SimModel
        decreases self.pending.len(),
    {
        if self.pending.len() > 0 && self.pending[0].arrival <= self.time {
            (SimModel {
                pending: self.pending.drop_first(),
                cpu: self.cpu.enqueued(self.pending[0]),
                ..self
            }).admitted()
        } else {
            self
        }
    }

    /// A tick can be taken: the clock can advance, and each scheduler finds
    /// its bookkeeping in order and, at its turn, a process that has arrived
    /// and asks for the resource that the scheduler serves.
    pub open spec fn tickable(self) -> bool {
        let s = self.admitted();
        &&& s.time < i32::MAX
        &&& s.cpu.wf()
        &&& s.cpu.ready_at(s.time)
        &&& !s.cpu.misrouted()
        &&& s.io.wf()
        &&& s.io.ready_at(s.time)
        &&& !s.io.misrouted()
    }

    /// The system after one tick: arrivals are admitted, the CPU scheduler
    /// ticks, then the IO scheduler; after both, each process that completed
    /// a burst joins the finished list or the back of the queue for its next
    /// burst, the CPU scheduler's process before the IO scheduler's; the
    /// clock advances.
    pub open spec fn ticked(self) -> SimModel {
        let s = self.admitted();
        let (cpu, by_cpu) = s.cpu.step();
        let (io, by_io) = s.io.step();
        SimModel {
            time: s.time + 1,
            pending: s.pending,
            cpu: SchedModel {
                queue: cpu.queue + to_queue(by_cpu, BurstKind::Cpu) + to_queue(by_io, BurstKind::Cpu),
                ..cpu
            },
            io: SchedModel {
                queue: io.queue + to_queue(by_cpu, BurstKind::Io) + to_queue(by_io, BurstKind::Io),
                ..io
            },
            finished: s.finished + to_finished(by_cpu) + to_finished(by_io),
        }
    }

    /// The entry that the next tick records: what the two schedulers report
    /// and how the tick leaves the queues and lists.
    pub open spec fn snapshot(self) -> TickView {
        let s = self.admitted();
        let next = self.ticked();
        TickView {
            cpu_process: s.cpu.step().1,
            io_process: s.io.step().1,
            cpu_queue: next.cpu.queue,
            io_queue: next.io.queue,
            yet_to_arrive: next.pending,
            finished_processes: next.finished,
        }
    }

    /// Nothing is left to run and nothing is left to arrive.
    pub open spec fn done(self) -> bool {
        &&& self.cpu.queue.len() == 0
        &&& self.io.queue.len() == 0
        &&& self.pending.len() == 0
    }

    /// The system after `n` ticks.
    pub open spec fn after(self, n: nat) -> SimModel
        decreases n,
    {
        if n == 0 {
            self
        } else {
            self.after((n - 1) as nat).ticked()
        }
    }

    /// None of the first `n` ticks leaves the system done.
    #[verifier::opaque]
    pub open spec fn running(self, n: nat) -> bool {
        forall|k: nat| 1 <= k <= n ==> !(#[trigger] self.after(k)).done()
    }

    /// Every tick of the run can be taken: whenever the run is not over, the
    /// system is `tickable`.
    pub open spec fn runnable(self) -> bool {
        forall|n: nat| self.running(n) ==> (#[trigger] self.after(n)).tickable()
    }

    /// The run ends with tick number `n`: it is the first that leaves the
    /// system done.
    pub open spec fn ends_after(self, n: nat) -> bool {
        &&& n >= 1
        &&& self.running((n - 1) as nat)
        &&& self.after(n).done()
    }

    /// The entries that the first `n` ticks record.
    pub open spec fn trace(self, n: nat) -> Seq<TickView> {
        Seq::new(n, |i: int| self.after(i as nat).snapshot())
    }
}

/// Admission moves processes from the arrival list to the back of the CPU
/// queue and touches nothing else.
pub proof fn lemma_admitted_moves(s: SimModel)
    ensures
        s.admitted().time == s.time,
        s.admitted().io == s.io,
        s.admitted().finished == s.finished,
        s.admitted().cpu.policy == s.cpu.policy,
        s.admitted().cpu.kind == s.cpu.kind,
        s.admitted().cpu.queue + s.admitted().pending == s.cpu.queue + s.pending,
        s.admitted().pending.len() > 0 ==> s.admitted().pending[0].arrival > s.time,
    decreases s.pending.len(),
{
    if s.pending.len() > 0 && s.pending[0].arrival <= s.time {
        let next = SimModel {
            pending: s.pending.drop_first(),
            cpu: s.cpu.enqueued(s.pending[0]),
            ..s
        };
        lemma_admitted_moves(next);
    }
}

/// A run that is not done after one more tick is still running.
pub proof fn lemma_running_extends(start: SimModel, n: nat)
    requires
        start.running(n),
        !start.after(n + 1).done(),
    ensures
        start.running(n + 1),
{
    reveal(SimModel::running);
}

/// A run is running before its first tick.
pub proof fn lemma_running_at_start(start: SimModel)
    ensures
        start.running(0),
{
    reveal(SimModel::running);
}

/// A run ends once: the tick with which it ends is the first that leaves
/// the system done, and there is one first only.
pub proof fn lemma_end_is_unique(start: SimModel, a: nat, b: nat)
    requires
        start.ends_after(a),
        start.ends_after(b),
    ensures
        a == b,
{
    reveal(SimModel::running);
    if a < b {
    } else if b < a {
    }
}

/// The record of `n + 1` ticks is the record of `n` ticks and the entry of
/// the tick taken after them.
pub proof fn lemma_trace_extends(start: SimModel, n: nat)
    ensures
        start.trace(n + 1) == start.trace(n).push(start.after(n).snapshot()),
{
}

/// Ticks `scheduler` once and sends a process that completed its burst on its
/// way: to `finished_process_queue` if it has no burst left, else to
/// `cpu_queue` or `io_queue` by the kind of its next burst. Returns what the
/// scheduler reported.
pub fn run_sched<S: Scheduler>(
    scheduler: &mut S,
    system_state: &SystemState,
    finished_process_queue: &mut Vec<Process>,
    cpu_queue: &mut Vec<Process>,
    io_queue: &mut Vec<Process>,
) -> (result: SchedulerResult)
    requires
        old(scheduler).model().wf(),
        old(scheduler).model().ready_at(system_state.time as int),
        !old(scheduler).model().misrouted(),
    ensures
        final(scheduler).model() == old(scheduler).model().step().0,
        final(scheduler).model().wf(),
        result@ == old(scheduler).model().step().1,
        views(final(finished_process_queue)@) == views(old(finished_process_queue)@) + to_finished(
            result@,
        ),
        views(final(cpu_queue)@) == views(old(cpu_queue)@) + to_queue(result@, BurstKind::Cpu),
        views(final(io_queue)@) == views(old(io_queue)@) + to_queue(result@, BurstKind::Io),
{
    let result = scheduler.tick(system_state);
    match &result {
        SchedulerResult::Finished(p) => {
            let process = p.clone();
            if process.bursts.len() == 0 {
                finished_process_queue.push(process);
            } else {
                match process.bursts[0].kind {
                    BurstKind::Cpu => cpu_queue.push(process),
                    BurstKind::Io => io_queue.push(process),
                }
            }
        },
        SchedulerResult::NoBurstLeft(p) => {
            finished_process_queue.push(p.clone());
        },
        _ => {},
    }
    result
}

/// A copy of each process of `processes`, in order.
pub fn snapshot_of(processes: &Vec<Process>) -> (copy: Vec<Process>)
    ensures
        views(copy@) == views(processes@),
{
    let mut copy: Vec<Process> = Vec::new();
    let mut i: usize = 0;
    while i < processes.len()
        invariant
            i <= processes.len(),
            copy.len() == i,
            forall|j: int| 0 <= j < i ==> copy[j]@ == processes[j]@,
        decreases processes.len() - i,
    {
        copy.push(processes[i].clone());
        i += 1;
    }
    copy
}

/// A copy of each process that has not arrived yet, in order.
pub fn snapshot_of_pending(processes: &VecDeque<Process>) -> (copy: Vec<Process>)
    ensures
        views(copy@) == views(processes@),
{
    let mut copy: Vec<Process> = Vec::new();
    let mut i: usize = 0;
    while i < processes.len()
        invariant
            i <= processes.len(),
            copy.len() == i,
            forall|j: int| 0 <= j < i ==> copy[j]@ == processes@[j]@,
        decreases processes.len() - i,
    {
        copy.push(processes[i].clone());
        i += 1;
    }
    copy
}

/// Puts each process of `processes` at the back of the scheduler's queue, in
/// order.
pub fn enqueue_all<S: Scheduler>(scheduler: &mut S, processes: Vec<Process>)
    ensures
        final(scheduler).model() == (SchedModel {
            queue: old(scheduler).model().queue + views(processes@),
            ..old(scheduler).model()
        }),
{
    let mut rest = processes;
    let ghost all = views(processes@);
    while rest.len() > 0
        invariant
            rest.len() <= all.len(),
            forall|j: int| 0 <= j < rest.len() ==> rest[j]@ == all[all.len() - rest.len() + j],
            scheduler.model() == (SchedModel {
                queue: old(scheduler).model().queue + all.take(all.len() - rest.len()),
                ..old(scheduler).model()
            }),
        decreases rest.len(),
    {
        let ghost n = all.len() - rest.len();
        let process = rest.remove(0);
        scheduler.enqueue(process);
        assert((old(scheduler).model().queue + all.take(n)).push(all[n]) =~= old(
            scheduler,
        ).model().queue + all.take(n + 1));
    }
    assert(all.take(all.len() as int) =~= all);
}

/// The system: the clock, the processes still to arrive, the two schedulers
/// and the processes that are through.
pub struct Simulation<C: Scheduler, I: Scheduler> {
    pub processes: VecDeque<Process>,
    pub cpu_sched: C,
    pub io_sched: I,
    pub finished_process_queue: Vec<Process>,
    pub state: SystemState,
}

impl<C: Scheduler, I: Scheduler> Simulation<C, I> {
    /// The system as a mathematical value.
    pub open spec fn model(&self) -> SimModel {
        SimModel {
            time: self.state.time as int,
            pending: views(self.processes@),
            cpu: self.cpu_sched.model(),
            io: self.io_sched.model(),
            finished: views(self.finished_process_queue@),
        }
    }

    /// The system at tick 0: `processes` are still to arrive, in that order.
    pub fn new(processes: VecDeque<Process>, cpu_sched: C, io_sched: I) -> (sim: Self)
        ensures
            sim.model() == SimModel::initial(
                views(processes@),
                cpu_sched.model(),
                io_sched.model(),
            ),
    {
        let sim = Simulation {
            processes,
            cpu_sched,
            io_sched,
            finished_process_queue: Vec::new(),
            state: SystemState::new(),
        };
        assert(views(sim.finished_process_queue@) =~= Seq::<ProcessView>::empty());
        sim
    }

    /// Moves every process at the front of the arrival list whose time has
    /// come into the CPU queue.
    pub fn admit_arrivals(&mut self)
        ensures
            final(self).model() == old(self).model().admitted(),
    {
        while self.processes.len() > 0 && self.processes[0].arrival <= self.state.time
            invariant
                self.model().admitted() == old(self).model().admitted(),
            decreases self.processes.len(),
        {
            let ghost before = self.model();
            let process = self.processes.pop_front().unwrap();
            assert(views(self.processes@) =~= before.pending.drop_first());
            self.cpu_sched.enqueue(process);
        }
    }

    /// Takes one tick and returns its record.
    pub fn tick(&mut self) -> (entry: TickEntry)
        requires
            old(self).model().tickable(),
        ensures
            final(self).model() == old(self).model().ticked(),
            entry@ == old(self).model().snapshot(),
    {
        self.admit_arrivals();
        let mut cpu_queue: Vec<Process> = Vec::new();
        let mut io_queue: Vec<Process> = Vec::new();
        let cpu_sched_result = run_sched(
            &mut self.cpu_sched,
            &self.state,
            &mut self.finished_process_queue,
            &mut cpu_queue,
            &mut io_queue,
        );
        let io_sched_result = run_sched(
            &mut self.io_sched,
            &self.state,
            &mut self.finished_process_queue,
            &mut cpu_queue,
            &mut io_queue,
        );
        let ghost cpu = self.cpu_sched.model();
        let ghost io = self.io_sched.model();
        enqueue_all(&mut self.cpu_sched, cpu_queue);
        enqueue_all(&mut self.io_sched, io_queue);
        assert(self.cpu_sched.model().queue =~= cpu.queue + to_queue(
            cpu_sched_result@,
            BurstKind::Cpu,
        ) + to_queue(io_sched_result@, BurstKind::Cpu));
        assert(self.io_sched.model().queue =~= io.queue + to_queue(
            cpu_sched_result@,
            BurstKind::Io,
        ) + to_queue(io_sched_result@, BurstKind::Io));
        let entry = TickEntry {
            cpu_process: cpu_sched_result,
            io_process: io_sched_result,
            cpu_queue: snapshot_of(self.cpu_sched.get_queue()),
            io_queue: snapshot_of(self.io_sched.get_queue()),
            yet_to_arrive: snapshot_of_pending(&self.processes),
            finished_processes: snapshot_of(&self.finished_process_queue),
        };
        self.state.time = self.state.time + 1;
        entry
    }

    /// True when nothing is left to run and nothing is left to arrive.
    pub fn is_done(&self) -> (done: bool)
        ensures
            done == self.model().done(),
    {
        let cpu_queue = self.cpu_sched.get_queue();
        let io_queue = self.io_sched.get_queue();
        cpu_queue.len() == 0 && io_queue.len() == 0 && self.processes.len() == 0
    }
}

/// Runs the system from tick 0 until a tick leaves nothing to run and nothing
/// to arrive, and returns the record of every tick.
pub fn start_sim<C: Scheduler, I: Scheduler>(
    processes: VecDeque<Process>,
    cpu_sched: C,
    io_sched: I,
) -> (log: Log)
    requires
        SimModel::initial(views(processes@), cpu_sched.model(), io_sched.model()).runnable(),
    ensures
        SimModel::initial(views(processes@), cpu_sched.model(), io_sched.model()).ends_after(
            log@.len(),
        ),
        log@ == SimModel::initial(views(processes@), cpu_sched.model(), io_sched.model()).trace(
            log@.len(),
        ),
{
    let ghost start = SimModel::initial(views(processes@), cpu_sched.model(), io_sched.model());
    let mut sim = Simulation::new(processes, cpu_sched, io_sched);
    let mut log = Log::new();
    proof {
        lemma_running_at_start(start);
    }
    loop
        invariant_except_break
            sim.model() == start.after(log@.len()),
            start.running(log@.len()),
            log@ == start.trace(log@.len()),
        invariant
            start.runnable(),
        ensures
            start.ends_after(log@.len()),
            log@ == start.trace(log@.len()),
        decreases i32::MAX - sim.state.time,
    {
        let ghost n = log@.len();
        let ghost before = sim.model();
        proof {
            lemma_admitted_moves(before);
        }
        let entry = sim.tick();
        log.push(entry);
        proof {
            if !sim.model().done() {
                lemma_running_extends(start, n);
            }
        }
        if sim.is_done() {
            break;
        }
    }
    log
}

} // verus!
