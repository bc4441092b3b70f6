//! Schedulers: what a tick reports, the three policies as one mathematical
//! model, and the interface that each policy implements.

use vstd::prelude::*;
use crate::process::{views, BurstKind, Process, ProcessView};
use crate::system_state::SystemState;

pub mod fcfs;
pub mod priority;
pub mod round_robin;

verus! {

/// What a scheduler did in one tick.
#[derive(Debug, PartialEq, Eq)]
pub enum SchedulerResult {
    /// The ready queue was empty.
    Idle,
    /// The process did one unit of work and its burst is not yet complete.
    Processing(Process),
    /// The process completed its burst, which has been taken off its list.
    Finished(Process),
    /// The selected process had no burst at all; it has left the queue.
    NoBurstLeft(Process),
    /// The selected process asks for the other kind of resource.
    WrongKind,
}

/// A `SchedulerResult` as a mathematical value.
pub enum ResultView {
    Idle,
    Processing(ProcessView),
    Finished(ProcessView),
    NoBurstLeft(ProcessView),
    WrongKind,
}

impl View for SchedulerResult {
    type V = ResultView;

    open spec fn view(&self) -> ResultView {
        match self {
            SchedulerResult::Idle => ResultView::Idle,
            SchedulerResult::Processing(p) => ResultView::Processing(p@),
            SchedulerResult::Finished(p) => ResultView::Finished(p@),
            SchedulerResult::NoBurstLeft(p) => ResultView::NoBurstLeft(p@),
            SchedulerResult::WrongKind => ResultView::WrongKind,
        }
    }
}

impl Clone for SchedulerResult {
    fn clone(&self) -> (copy: Self)
        ensures
            copy@ == self@,
    {
        match self {
            SchedulerResult::Idle => SchedulerResult::Idle,
            SchedulerResult::Processing(p) => SchedulerResult::Processing(p.clone()),
            SchedulerResult::Finished(p) => SchedulerResult::Finished(p.clone()),
            SchedulerResult::NoBurstLeft(p) => SchedulerResult::NoBurstLeft(p.clone()),
            SchedulerResult::WrongKind => SchedulerResult::WrongKind,
        }
    }
}

/// One tick of work for the process at position `i` of `queue`, on behalf of
/// a scheduler for `kind`: the queue afterwards and what is reported.
///
/// A process without bursts leaves the queue. A process whose active burst is
/// of the other kind is left alone. Otherwise the active burst loses one unit;
/// if that completes it, the burst is taken off and the process leaves the
/// queue, else the process stays where it is.
pub open spec fn served(queue: Seq<ProcessView>, i: int, kind: BurstKind) -> (
    Seq<ProcessView>,
    ResultView,
) {
    let p = queue[i];
    if p.bursts.len() == 0 {
        (queue.remove(i), ResultView::NoBurstLeft(p))
    } else if p.bursts[0].kind != kind {
        (queue, ResultView::WrongKind)
    } else if p.ticked().bursts[0].remaining == 0 {
        (queue.remove(i), ResultView::Finished(p.ticked().advanced()))
    } else {
        (queue.update(i, p.ticked()), ResultView::Processing(p.ticked()))
    }
}

/// Gives the process at `index` one tick of work, as `served` describes.
pub fn serve(queue: &mut Vec<Process>, index: usize, kind: BurstKind, state: &SystemState) -> (result:
    SchedulerResult)
    requires
        index < old(queue).len(),
        old(queue)[index as int].arrival <= state.time,
    ensures
        views(final(queue)@) == served(views(old(queue)@), index as int, kind).0,
        result@ == served(views(old(queue)@), index as int, kind).1,
{
    if queue[index].bursts.len() == 0 {
        let process = queue.remove(index);
        return SchedulerResult::NoBurstLeft(process);
    }
    if queue[index].bursts[0].kind != kind {
        return SchedulerResult::WrongKind;
    }
    queue[index].tick(state);
    if queue[index].bursts[0].remaining == 0 {
        let mut process = queue.remove(index);
        process.bursts.remove(0);
        SchedulerResult::Finished(process)
    } else {
        SchedulerResult::Processing(queue[index].clone())
    }
}

/// The position of the first process of lowest priority value in `queue`
/// (0 when the queue is empty).
pub open spec fn first_lowest(queue: Seq<ProcessView>) -> int
    decreases queue.len(),
{
    if queue.len() <= 1 {
        0
    } else {
        let best = first_lowest(queue.drop_last());
        if queue.last().priority < queue[best].priority {
            queue.len() - 1
        } else {
            best
        }
    }
}

/// In a queue that is not empty, `first_lowest` names a process whose
/// priority value none in the queue undercuts, and the earliest such process:
/// every process before it has a strictly higher priority value.
pub proof fn lemma_first_lowest(queue: Seq<ProcessView>)
    requires
        queue.len() > 0,
    ensures
        0 <= first_lowest(queue) < queue.len(),
        forall|j: int|
            0 <= j < queue.len() ==> queue[first_lowest(queue)].priority <= (#[trigger] queue[j]).priority,
        forall|j: int|
            0 <= j < first_lowest(queue) ==> queue[first_lowest(queue)].priority < (#[trigger] queue[j]).priority,
    decreases queue.len(),
{
    if queue.len() > 1 {
        let rest = queue.drop_last();
        lemma_first_lowest(rest);
        assert(forall|j: int| 0 <= j < rest.len() ==> rest[j] == queue[j]);
    }
}

/// The bookkeeping that tells the three scheduling policies apart.
pub enum Policy {
    /// First come, first served: the front process runs until its burst is
    /// complete.
    Fcfs,
    /// Lowest priority value first, without preemption. While `running`, the
    /// front process is the one that was selected and keeps the scheduler
    /// until its burst is complete.
    Priority { running: bool },
    /// The front process runs for at most `quantum` ticks in a row; `used`
    /// counts the ticks it has had since it came to the front.
    RoundRobin { quantum: int, used: int },
}

/// A scheduler as a mathematical value: its policy, the kind of burst it
/// serves and its ready queue. A process that is being run stands at the
/// front of the queue.
pub struct SchedModel {
    pub policy: Policy,
    pub kind: BurstKind,
    pub queue: Seq<ProcessView>,
}

impl SchedModel {
    /// The bookkeeping is consistent.
    pub open spec fn wf(self) -> bool {
        match self.policy {
            Policy::Fcfs => true,
            Policy::Priority { running } => running ==> self.queue.len() > 0,
            Policy::RoundRobin { quantum, used } => 0 <= used < quantum,
        }
    }

    /// The position in the queue of the process that the next tick works on.
    pub open spec fn chosen(self) -> int {
        match self.policy {
            Policy::Priority { running: false } => first_lowest(self.queue),
            _ => 0,
        }
    }

    /// The process that the next tick works on has arrived by `time`.
    pub open spec fn ready_at(self, time: int) -> bool {
        self.queue.len() > 0 ==> self.queue[self.chosen()].arrival <= time
    }

    /// The next tick would find a process that asks for the other kind of
    /// resource.
    pub open spec fn misrouted(self) -> bool {
        &&& self.queue.len() > 0
        &&& self.queue[self.chosen()].bursts.len() > 0
        &&& self.queue[self.chosen()].bursts[0].kind != self.kind
    }

    /// The scheduler after `process` has joined the back of the queue.
    pub open spec fn enqueued(self, process: ProcessView) -> SchedModel {
        SchedModel { queue: self.queue.push(process), ..self }
    }

    /// The scheduler after one tick, and what the tick reports.
    pub open spec fn step(self) -> (SchedModel, ResultView) {
        if self.queue.len() == 0 {
            (self, ResultView::Idle)
        } else {
            let i = self.chosen();
            let (queue, result) = served(self.queue, i, self.kind);
            match result {
                ResultView::Processing(p) => match self.policy {
                    Policy::Fcfs => (SchedModel { queue, ..self }, result),
                    Policy::Priority { .. } => (
                        SchedModel {
                            policy: Policy::Priority { running: true },
                            queue: queue.remove(i).insert(0, p),
                            ..self
                        },
                        result,
                    ),
                    Policy::RoundRobin { quantum, used } => if used + 1 >= quantum {
                        (
                            SchedModel {
                                policy: Policy::RoundRobin { quantum, used: 0 },
                                queue: queue.drop_first().push(p),
                                ..self
                            },
                            result,
                        )
                    } else {
                        (
                            SchedModel {
                                policy: Policy::RoundRobin { quantum, used: used + 1 },
                                queue,
                                ..self
                            },
                            result,
                        )
                    },
                },
                ResultView::WrongKind => (self, result),
                _ => (SchedModel { policy: self.policy.rested(), queue, ..self }, result),
            }
        }
    }
}

impl Policy {
    /// The bookkeeping once the process that was run has left the queue.
    pub open spec fn rested(self) -> Policy {
        match self {
            Policy::Fcfs => Policy::Fcfs,
            Policy::Priority { .. } => Policy::Priority { running: false },
            Policy::RoundRobin { quantum, .. } => Policy::RoundRobin { quantum, used: 0 },
        }
    }
}

/// The process whose turn it is stands in the queue.
pub proof fn lemma_chosen_in_queue(m: SchedModel)
    requires
        m.queue.len() > 0,
    ensures
        0 <= m.chosen() < m.queue.len(),
{
    lemma_first_lowest(m.queue);
}

/// A tick leaves the bookkeeping consistent.
pub proof fn lemma_wf_is_kept(m: SchedModel)
    requires
        m.wf(),
    ensures
        m.step().0.wf(),
        m.step().0.kind == m.kind,
{
}

/// What every scheduling policy offers: a ready queue that processes join,
/// and a tick that gives one process one unit of work.
pub trait Scheduler {
    /// The scheduler as a mathematical value.
    spec fn model(&self) -> SchedModel;

    /// Puts `process` at the back of the ready queue.
    fn enqueue(&mut self, process: Process)
        ensures
            final(self).model() == old(self).model().enqueued(process@),
    ;

    /// Gives the process whose turn it is one unit of work.
    fn tick(&mut self, system_state: &SystemState) -> (result: SchedulerResult)
        requires
            old(self).model().wf(),
            old(self).model().ready_at(system_state.time as int),
        ensures
            final(self).model() == old(self).model().step().0,
            result@ == old(self).model().step().1,
            final(self).model().wf(),
    ;

    /// The ready queue as it stands, the running process first.
    fn get_queue(&self) -> (queue: &Vec<Process>)
        ensures
            views(queue@) == self.model().queue,
    ;
}

} // verus!
