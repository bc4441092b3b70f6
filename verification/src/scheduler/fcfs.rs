//! First come, first served.

use vstd::prelude::*;
use crate::history::{departing, joining, leaving, pids, replay, Event};
use crate::process::{views, BurstKind, Process};
use crate::scheduler::{serve, Policy, ResultView, SchedModel, Scheduler, SchedulerResult};
use crate::system_state::SystemState;

verus! {

/// First come, first served: processes run in the order in which they joined
/// the queue, each until its burst is complete.
pub struct FCFS {
    queue: Vec<Process>,
    kind: BurstKind,
}

impl FCFS {
    /// A scheduler for bursts of `kind` whose queue holds `processes`.
    pub fn new(processes: Vec<Process>, kind: BurstKind) -> (scheduler: Self)
        ensures
            scheduler.model() == (SchedModel {
                policy: Policy::Fcfs,
                kind,
                queue: views(processes@),
            }),
    {
        Self { queue: processes, kind }
    }
}

impl Scheduler for FCFS {
    closed spec fn model(&self) -> SchedModel {
        SchedModel { policy: Policy::Fcfs, kind: self.kind, queue: views(self.queue@) }
    }

    fn enqueue(&mut self, process: Process) {
        self.queue.push(process);
        assert(views(self.queue@) =~= views(old(self).queue@).push(process@));
    }

    fn tick(&mut self, system_state: &SystemState) -> (result: SchedulerResult) {
        if self.queue.len() == 0 {
            return SchedulerResult::Idle;
        }
        serve(&mut self.queue, 0, self.kind, system_state)
    }

    fn get_queue(&self) -> (queue: &Vec<Process>) {
        &self.queue
    }
}

/// Under first come, first served, whatever a tick reports is about the
/// process at the front of the queue; the tick leaves the queue in its order
/// and takes the front process off if its burst is complete.
pub proof fn lemma_fcfs_serves_front(m: SchedModel)
    requires
        m.policy == Policy::Fcfs,
    ensures
        m.chosen() == 0,
        m.step().0.policy == Policy::Fcfs,
        match m.step().1 {
            ResultView::Idle => m.queue.len() == 0 && m.step().0 == m,
            ResultView::WrongKind => m.misrouted() && m.step().0 == m,
            ResultView::Processing(p) => {
                &&& m.queue.len() > 0
                &&& p == m.queue[0].ticked()
                &&& m.step().0.queue == m.queue.update(0, p)
            },
            ResultView::Finished(p) => {
                &&& m.queue.len() > 0
                &&& p == m.queue[0].ticked().advanced()
                &&& m.step().0.queue == m.queue.drop_first()
            },
            ResultView::NoBurstLeft(p) => {
                &&& m.queue.len() > 0
                &&& p == m.queue[0]
                &&& m.step().0.queue == m.queue.drop_first()
            },
        },
        pids(m.queue) == leaving(m.step().1) + pids(m.step().0.queue),
{
}

/// First in, first out: through any course of arrivals and ticks, the
/// processes leave a first-come-first-served queue in the order in which
/// they joined it. Those that were in the queue, then those that joined,
/// are those that left, then those still in the queue.
pub proof fn lemma_fcfs_is_fifo(m: SchedModel, events: Seq<Event>)
    requires
        m.policy == Policy::Fcfs,
    ensures
        replay(m, events).policy == Policy::Fcfs,
        pids(m.queue) + joining(events) == departing(m, events) + pids(replay(m, events).queue),
    decreases events.len(),
{
    if events.len() > 0 {
        let earlier = events.drop_last();
        lemma_fcfs_is_fifo(m, earlier);
        match events.last() {
            Event::Enqueue(process) => {
                assert(pids(m.queue) + joining(events) =~= (pids(m.queue) + joining(earlier))
                    + seq![process.pid]);
            },
            Event::Tick => {
                lemma_fcfs_serves_front(replay(m, earlier));
            },
        }
    }
}

} // verus!
