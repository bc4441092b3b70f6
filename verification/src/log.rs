//! The execution trace: one entry per tick.

use vstd::prelude::*;
use crate::process::{views, Process, ProcessView};
use crate::scheduler::{ResultView, SchedulerResult};

verus! {

/// What one tick did and how it left the system.
#[derive(Debug, PartialEq, Eq)]
pub struct TickEntry {
    /// What the CPU scheduler reported.
    pub cpu_process: SchedulerResult,
    /// What the IO scheduler reported.
    pub io_process: SchedulerResult,
    /// The CPU ready queue at the end of the tick.
    pub cpu_queue: Vec<Process>,
    /// The IO ready queue at the end of the tick.
    pub io_queue: Vec<Process>,
    /// The processes that have not arrived yet.
    pub yet_to_arrive: Vec<Process>,
    /// The processes that have run all their bursts.
    pub finished_processes: Vec<Process>,
}

/// A `TickEntry` as a mathematical value.
pub struct TickView {
    pub cpu_process: ResultView,
    pub io_process: ResultView,
    pub cpu_queue: Seq<ProcessView>,
    pub io_queue: Seq<ProcessView>,
    pub yet_to_arrive: Seq<ProcessView>,
    pub finished_processes: Seq<ProcessView>,
}

impl View for TickEntry {
    type V = TickView;

    open spec fn view(&self) -> TickView {
        TickView {
            cpu_process: self.cpu_process@,
            io_process: self.io_process@,
            cpu_queue: views(self.cpu_queue@),
            io_queue: views(self.io_queue@),
            yet_to_arrive: views(self.yet_to_arrive@),
            finished_processes: views(self.finished_processes@),
        }
    }
}

/// The execution trace: one entry per tick, oldest first.
#[derive(Debug, PartialEq, Eq)]
pub struct Log {
    pub entries: Vec<TickEntry>,
}

impl View for Log {
    type V = Seq<TickView>;

    open spec fn view(&self) -> Seq<TickView> {
        Seq::new(self.entries@.len(), |i: int| self.entries@[i]@)
    }
}

impl Log {
    /// A trace without entries.
    pub fn new() -> (log: Self)
        ensures
            log@ == Seq::<TickView>::empty(),
    {
        let log = Log { entries: Vec::new() };
        log
    }

    /// Adds `entry` as the latest tick.
    pub fn push(&mut self, entry: TickEntry)
        ensures
            final(self)@ == old(self)@.push(entry@),
    {
        self.entries.push(entry);
    }
}

} // verus!
