//! Courses of events on one scheduler: arrivals and ticks, and who joins
//! and leaves the queue in them.

use vstd::prelude::*;
use crate::process::ProcessView;
use crate::scheduler::{ResultView, SchedModel};

verus! {

/// What can happen to a scheduler: a process joins its queue, or it ticks.
pub enum Event {
    Enqueue(ProcessView),
    Tick,
}

/// The scheduler after `event`.
pub open spec fn apply(m: SchedModel, event: Event) -> SchedModel {
    match event {
        Event::Enqueue(process) => m.enqueued(process),
        Event::Tick => m.step().0,
    }
}

/// The scheduler after `events`, in order.
pub open spec fn replay(m: SchedModel, events: Seq<Event>) -> SchedModel
    decreases events.len(),
{
    if events.len() == 0 {
        m
    } else {
        apply(replay(m, events.drop_last()), events.last())
    }
}

/// The pids of the processes of `queue`, in order.
pub open spec fn pids(queue: Seq<ProcessView>) -> Seq<int> {
    Seq::new(queue.len(), |i: int| queue[i].pid)
}

/// The pids of the processes that join the queue in `events`, in order.
pub open spec fn joining(events: Seq<Event>) -> Seq<int>
    decreases events.len(),
{
    if events.len() == 0 {
        Seq::empty()
    } else {
        joining(events.drop_last()) + (match events.last() {
            Event::Enqueue(process) => seq![process.pid],
            Event::Tick => Seq::empty(),
        })
    }
}

/// The pid of the process that leaves the queue with `result`, if one does.
pub open spec fn leaving(result: ResultView) -> Seq<int> {
    match result {
        ResultView::Finished(p) => seq![p.pid],
        ResultView::NoBurstLeft(p) => seq![p.pid],
        _ => Seq::empty(),
    }
}

/// The pids of the processes that leave the queue as the scheduler goes
/// through `events`, in order.
pub open spec fn departing(m: SchedModel, events: Seq<Event>) -> Seq<int>
    decreases events.len(),
{
    if events.len() == 0 {
        Seq::empty()
    } else {
        departing(m, events.drop_last()) + (match events.last() {
            Event::Enqueue(process) => Seq::empty(),
            Event::Tick => leaving(replay(m, events.drop_last()).step().1),
        })
    }
}

/// The number of ticks among `events`.
pub open spec fn ticks_in(events: Seq<Event>) -> int
    decreases events.len(),
{
    if events.len() == 0 {
        0
    } else {
        ticks_in(events.drop_last()) + (match events.last() {
            Event::Enqueue(process) => 0int,
            Event::Tick => 1int,
        })
    }
}

} // verus!
