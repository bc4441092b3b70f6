//! Lowest priority value first, without preemption.

use vstd::prelude::*;
use crate::process::{views, BurstKind, Process, ProcessView};
use crate::scheduler::{
    first_lowest, lemma_first_lowest, serve, Policy, ResultView, SchedModel, Scheduler,
    SchedulerResult,
};
use crate::system_state::SystemState;

verus! {

/// Lowest priority value first. A process, once selected, keeps the scheduler
/// until its burst is complete, whoever joins the queue meanwhile.
pub struct Priority {
    queue: Vec<Process>,
    kind: BurstKind,
    running: bool,
}

/// The position of the first process of lowest priority value.
pub fn lowest(queue: &Vec<Process>) -> (best: usize)
    requires
        queue.len() > 0,
    ensures
        best == first_lowest(views(queue@)),
        best < queue.len(),
{
    let mut best: usize = 0;
    let mut k: usize = 1;
    while k < queue.len()
        invariant
            1 <= k <= queue.len(),
            best < k,
            best == first_lowest(views(queue@).take(k as int)),
        decreases queue.len() - k,
    {
        assert(views(queue@).take(k + 1).drop_last() =~= views(queue@).take(k as int));
        if queue[k].priority < queue[best].priority {
            best = k;
        }
        k += 1;
    }
    assert(views(queue@).take(k as int) =~= views(queue@));
    best
}

impl Priority {
    /// A scheduler for bursts of `kind` whose queue holds `processes`, none
    /// of them selected yet.
    pub fn new(processes: Vec<Process>, kind: BurstKind) -> (scheduler: Self)
        ensures
            scheduler.model() == (SchedModel {
                policy: Policy::Priority { running: false },
                kind,
                queue: views(processes@),
            }),
    {
        Self { queue: processes, kind, running: false }
    }
}

impl Scheduler for Priority {
    closed spec fn model(&self) -> SchedModel {
        SchedModel {
            policy: Policy::Priority { running: self.running },
            kind: self.kind,
            queue: views(self.queue@),
        }
    }

    fn enqueue(&mut self, process: Process) {
        self.queue.push(process);
        assert(views(self.queue@) =~= views(old(self).queue@).push(process@));
    }

    fn tick(&mut self, system_state: &SystemState) -> (result: SchedulerResult) {
        if self.queue.len() == 0 {
            return SchedulerResult::Idle;
        }
        let i = if self.running {
            0
        } else {
            lowest(&self.queue)
        };
        let result = serve(&mut self.queue, i, self.kind, system_state);
        match &result {
            SchedulerResult::Processing(_) => {
                let ghost served = views(self.queue@);
                assert(served.len() == self.queue.len());
                let process = self.queue.remove(i);
                self.queue.insert(0, process);
                self.running = true;
                assert(views(self.queue@) =~= served.remove(i as int).insert(0, served[i as int]));
            },
            SchedulerResult::WrongKind => {},
            _ => {
                self.running = false;
            },
        }
        result
    }

    fn get_queue(&self) -> (queue: &Vec<Process>) {
        &self.queue
    }
}

/// When a priority scheduler selects, it selects a process whose priority
/// value none in the queue undercuts, and among several of that value the one
/// that joined first. What the tick reports is about that process. If its
/// burst is not complete, it goes to the front and is marked as running; the
/// others stay in their order.
pub proof fn lemma_priority_selects_lowest(m: SchedModel)
    requires
        m.policy == (Policy::Priority { running: false }),
        m.queue.len() > 0,
    ensures
        0 <= m.chosen() < m.queue.len(),
        forall|j: int|
            0 <= j < m.queue.len() ==> m.queue[m.chosen()].priority <= (#[trigger] m.queue[j]).priority,
        forall|j: int|
            0 <= j < m.chosen() ==> m.queue[m.chosen()].priority < (#[trigger] m.queue[j]).priority,
        match m.step().1 {
            ResultView::Idle => false,
            ResultView::WrongKind => m.misrouted() && m.step().0 == m,
            ResultView::Processing(p) => {
                &&& p == m.queue[m.chosen()].ticked()
                &&& m.step().0.queue == seq![p] + m.queue.remove(m.chosen())
                &&& m.step().0.policy == (Policy::Priority { running: true })
            },
            ResultView::Finished(p) => {
                &&& p == m.queue[m.chosen()].ticked().advanced()
                &&& m.step().0.queue == m.queue.remove(m.chosen())
                &&& m.step().0.policy == (Policy::Priority { running: false })
            },
            ResultView::NoBurstLeft(p) => {
                &&& p == m.queue[m.chosen()]
                &&& m.step().0.queue == m.queue.remove(m.chosen())
                &&& m.step().0.policy == (Policy::Priority { running: false })
            },
        },
{
    lemma_first_lowest(m.queue);
}

/// A process that a priority scheduler has selected keeps the scheduler
/// until its burst is complete: while it is running, a tick works on it,
/// whatever the priority values of the processes that wait or have joined
/// since. The others stay in their order.
pub proof fn lemma_priority_runs_to_completion(m: SchedModel)
    requires
        m.policy == (Policy::Priority { running: true }),
        m.queue.len() > 0,
    ensures
        m.chosen() == 0,
        match m.step().1 {
            ResultView::Idle => false,
            ResultView::WrongKind => m.misrouted() && m.step().0 == m,
            ResultView::Processing(p) => {
                &&& p == m.queue[0].ticked()
                &&& m.step().0.queue == m.queue.update(0, p)
                &&& m.step().0.policy == (Policy::Priority { running: true })
            },
            ResultView::Finished(p) => {
                &&& p == m.queue[0].ticked().advanced()
                &&& m.step().0.queue == m.queue.drop_first()
                &&& m.step().0.policy == (Policy::Priority { running: false })
            },
            ResultView::NoBurstLeft(p) => {
                &&& p == m.queue[0]
                &&& m.step().0.queue == m.queue.drop_first()
                &&& m.step().0.policy == (Policy::Priority { running: false })
            },
        },
{
}

/// A process that joins the queue of a priority scheduler does not change
/// whose turn it is while a process is running.
pub proof fn lemma_priority_arrival_waits(m: SchedModel, process: ProcessView)
    requires
        m.policy == (Policy::Priority { running: true }),
        m.queue.len() > 0,
    ensures
        m.enqueued(process).chosen() == 0,
        m.enqueued(process).queue[0] == m.queue[0],
        m.enqueued(process).step().1 == m.step().1,
{
}

} // verus!
