//! Round robin with a quantum.

use vstd::prelude::*;
use crate::process::{views, BurstKind, Process};
use crate::history::{replay, ticks_in, Event};
use crate::scheduler::{serve, Policy, ResultView, SchedModel, Scheduler, SchedulerResult};
use crate::system_state::SystemState;

verus! {

/// Round robin: the front process runs for at most `quantum` ticks in a row
/// and then goes to the back of the queue with the work it has left.
pub struct RoundRobin {
    queue: Vec<Process>,
    kind: BurstKind,
    quantum: i32,
    used: i32,
}

impl RoundRobin {
    /// A scheduler for bursts of `kind` whose queue holds `processes` and
    /// that lets a process run for `quantum` ticks at a time.
    pub fn new(processes: Vec<Process>, kind: BurstKind, quantum: i32) -> (scheduler: Self)
        requires
            quantum > 0,
        ensures
            scheduler.model() == (SchedModel {
                policy: Policy::RoundRobin { quantum: quantum as int, used: 0 },
                kind,
                queue: views(processes@),
            }),
    {
        Self { queue: processes, kind, quantum, used: 0 }
    }
}

impl Scheduler for RoundRobin {
    closed spec fn model(&self) -> SchedModel {
        SchedModel {
            policy: Policy::RoundRobin { quantum: self.quantum as int, used: self.used as int },
            kind: self.kind,
            queue: views(self.queue@),
        }
    }

    fn enqueue(&mut self, process: Process) {
        self.queue.push(process);
        assert(views(self.queue@) =~= views(old(self).queue@).push(process@));
    }

    fn tick(&mut self, system_state: &SystemState) -> (result: SchedulerResult) {
        if self.queue.len() == 0 {
            return SchedulerResult::Idle;
        }
        let result = serve(&mut self.queue, 0, self.kind, system_state);
        match &result {
            SchedulerResult::Processing(_) => {
                if self.used + 1 >= self.quantum {
                    let ghost served = views(self.queue@);
                    assert(served.len() == self.queue.len());
                    let process = self.queue.remove(0);
                    self.queue.push(process);
                    self.used = 0;
                    assert(views(self.queue@) =~= served.drop_first().push(served[0]));
                } else {
                    self.used = self.used + 1;
                }
            },
            SchedulerResult::WrongKind => {},
            _ => {
                self.used = 0;
            },
        }
        result
    }

    fn get_queue(&self) -> (queue: &Vec<Process>) {
        &self.queue
    }
}

/// The ticks that the front process has had since it came to the front.
pub open spec fn used(m: SchedModel) -> int {
    match m.policy {
        Policy::RoundRobin { quantum, used } => used,
        _ => 0,
    }
}

/// The ticks that a process may have in a row.
pub open spec fn quantum(m: SchedModel) -> int {
    match m.policy {
        Policy::RoundRobin { quantum, used } => quantum,
        _ => 0,
    }
}

/// Under round robin, whatever a tick reports is about the process at the
/// front of the queue. If the tick completes the burst, the process leaves.
/// If it does not and the process has now had `quantum` ticks in a row, the
/// process goes to the back of the queue with the work it has left, and the
/// count starts anew. Otherwise the process stays at the front with one tick
/// more on its count, which is still below `quantum`.
pub proof fn lemma_round_robin_tick(m: SchedModel)
    requires
        m.policy is RoundRobin,
        m.wf(),
    ensures
        m.chosen() == 0,
        m.step().0.policy is RoundRobin,
        quantum(m.step().0) == quantum(m),
        0 <= used(m.step().0) < quantum(m),
        match m.step().1 {
            ResultView::Idle => m.queue.len() == 0 && m.step().0 == m,
            ResultView::WrongKind => m.misrouted() && m.step().0 == m,
            ResultView::Processing(p) => {
                &&& m.queue.len() > 0
                &&& p == m.queue[0].ticked()
                &&& if used(m) + 1 == quantum(m) {
                    &&& m.step().0.queue == m.queue.drop_first().push(p)
                    &&& used(m.step().0) == 0
                } else {
                    &&& m.step().0.queue == m.queue.update(0, p)
                    &&& used(m.step().0) == used(m) + 1
                }
            },
            ResultView::Finished(p) => {
                &&& m.queue.len() > 0
                &&& p == m.queue[0].ticked().advanced()
                &&& m.step().0.queue == m.queue.drop_first()
                &&& used(m.step().0) == 0
            },
            ResultView::NoBurstLeft(p) => {
                &&& m.queue.len() > 0
                &&& p == m.queue[0]
                &&& m.step().0.queue == m.queue.drop_first()
                &&& used(m.step().0) == 0
            },
        },
{
}

/// The event leaves the process at the front where it is: it is an arrival,
/// or a tick that works on the front process without completing its burst
/// and without sending it to the back.
pub open spec fn keeps_front(m: SchedModel, event: Event) -> bool {
    match event {
        Event::Enqueue(process) => true,
        Event::Tick => m.step().1 is Processing && used(m.step().0) == used(m) + 1,
    }
}

/// No process has more than `quantum` ticks in a row. Through any course
/// of arrivals and ticks that leaves the front process at the front, the
/// count of its ticks goes up by one per tick and stays below `quantum`: so
/// the process has had fewer than `quantum` ticks, and the next tick, the
/// `quantum`-th at the latest, completes its burst or sends it to the back.
pub proof fn lemma_round_robin_bounds_streak(m: SchedModel, events: Seq<Event>)
    requires
        m.policy is RoundRobin,
        m.wf(),
        forall|k: int|
            0 <= k < events.len() ==> keeps_front(replay(m, #[trigger] events.take(k)), events[k]),
    ensures
        replay(m, events).policy is RoundRobin,
        replay(m, events).wf(),
        quantum(replay(m, events)) == quantum(m),
        used(replay(m, events)) == used(m) + ticks_in(events),
        used(m) + ticks_in(events) < quantum(m),
    decreases events.len(),
{
    if events.len() > 0 {
        let earlier = events.drop_last();
        assert forall|k: int| 0 <= k < earlier.len() implies keeps_front(
            replay(m, #[trigger] earlier.take(k)),
            earlier[k],
        ) by {
            assert(earlier.take(k) =~= events.take(k));
        }
        lemma_round_robin_bounds_streak(m, earlier);
        lemma_round_robin_tick(replay(m, earlier));
    }
}

} // verus!
