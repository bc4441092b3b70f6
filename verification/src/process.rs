//! Processes and their bursts.

use vstd::prelude::*;
use crate::system_state::SystemState;

verus! {

/// The resource that a burst asks for.
#[derive(Debug, Clone, Copy, PartialEq, Eq, Structural)]
pub enum BurstKind {
    Cpu,
    Io,
}

impl BurstKind {
    /// The kind that follows this one in an alternating burst list.
    pub open spec fn flipped(self) -> BurstKind {
        match self {
            BurstKind::Cpu => BurstKind::Io,
            BurstKind::Io => BurstKind::Cpu,
        }
    }

    /// The other kind.
    pub fn other(self) -> (k: BurstKind)
        ensures
            k == self.flipped(),
    {
        match self {
            BurstKind::Cpu => BurstKind::Io,
            BurstKind::Io => BurstKind::Cpu,
        }
    }
}

/// One contiguous span of demand: `remaining` ticks of `kind`.
#[derive(Debug, Clone, Copy, PartialEq, Eq, Structural)]
pub struct Burst {
    pub kind: BurstKind,
    pub remaining: u32,
}

/// What a process is, as a mathematical value.
pub struct ProcessView {
    pub name: Seq<char>,
    pub pid: int,
    pub priority: int,
    pub arrival: int,
    pub bursts: Seq<Burst>,
}

impl ProcessView {
    /// The bursts are of the two kinds in turn.
    pub open spec fn alternating(self) -> bool {
        forall|i: int|
            0 <= i < self.bursts.len() - 1 ==> (#[trigger] self.bursts[i + 1]).kind
                == self.bursts[i].kind.flipped()
    }

    /// The process after one unit of work on its active burst. A process
    /// without bursts, or whose active burst is already at zero, is unchanged.
    pub open spec fn ticked(self) -> ProcessView {
        if self.bursts.len() > 0 && self.bursts[0].remaining > 0 {
            ProcessView {
                bursts: self.bursts.update(
                    0,
                    Burst {
                        kind: self.bursts[0].kind,
                        remaining: (self.bursts[0].remaining - 1) as u32,
                    },
                ),
                ..self
            }
        } else {
            self
        }
    }

    /// The process with its active burst taken off.
    pub open spec fn advanced(self) -> ProcessView {
        ProcessView { bursts: self.bursts.drop_first(), ..self }
    }
}

/// The views of a list of processes, in order.
pub open spec fn views(processes: Seq<Process>) -> Seq<ProcessView> {
    Seq::new(processes.len(), |i: int| processes[i]@)
}

/// A simulated job: who it is, when it arrives and what it still has to do.
#[derive(Debug, PartialEq, Eq)]
pub struct Process {
    pub name: String,
    pub pid: i32,
    pub priority: i32,
    pub arrival: i32,
    pub bursts: Vec<Burst>,
}

impl View for Process {
    type V = ProcessView;

    open spec fn view(&self) -> ProcessView {
        ProcessView {
            name: self.name@,
            pid: self.pid as int,
            priority: self.priority as int,
            arrival: self.arrival as int,
            bursts: self.bursts@,
        }
    }
}

impl Clone for Process {
    fn clone(&self) -> (copy: Self)
        ensures
            copy@ == self@,
    {
        let bursts = self.bursts.clone();
        Process {
            name: self.name.clone(),
            pid: self.pid,
            priority: self.priority,
            arrival: self.arrival,
            bursts,
        }
    }
}

impl Process {
    /// A process with these attributes; `bursts` are what it has to do, the
    /// active burst first.
    pub fn new(name: String, pid: i32, priority: i32, bursts: Vec<Burst>, arrival: i32) -> (process: Self)
        ensures
            process.name == name,
            process.pid == pid,
            process.priority == priority,
            process.bursts == bursts,
            process.arrival == arrival,
    {
        Self { name, pid, priority, bursts, arrival }
    }

    /// One unit of work on the active burst, for a process that has arrived.
    /// A burst that reaches zero stays on the list: to take it off is up to
    /// the scheduler.
    pub fn tick(&mut self, state: &SystemState)
        requires
            old(self).arrival <= state.time,
        ensures
            final(self)@ == old(self)@.ticked(),
    {
        if self.bursts.len() > 0 {
            let burst = self.bursts[0];
            if burst.remaining > 0 {
                self.bursts.set(0, Burst { kind: burst.kind, remaining: burst.remaining - 1 });
            }
        }
    }
}

} // verus!
