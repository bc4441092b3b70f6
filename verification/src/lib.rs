//! A discrete-time simulator of CPU/IO process scheduling.
//!
//! A process has a list of bursts, CPU and IO in turn. A scheduler owns a
//! ready queue and gives one process one unit of work per tick; there are
//! three policies: first come first served, priority and round robin. The
//! simulation admits processes as they arrive, ticks a CPU scheduler and an
//! IO scheduler in lock step, sends a process that completes a burst to the
//! queue for its next one, and records every tick.
//!
//! Every type has a mathematical model (`ProcessView`, `SchedModel`,
//! `SimModel`), and every function says what it does to the model. The run
//! of a whole simulation is the trace of the iterates of `SimModel::ticked`.
//!
//! - `process`, `system_state`: the data.
//! - `scheduler`: the model of a scheduler, the `Scheduler` interface and the
//!   three policies, each with what holds of it (first in first out; lowest
//!   priority value first and no preemption; no more than a quantum in a
//!   row).
//! - `simulation`, `log`: the system, its tick, the loop and the trace.
//! - `work`, `bounds`, `routing`, `history`: what holds of every run: work is
//!   credited tick by tick, a run ends by its deadline, processes go where
//!   their next burst is served and none is lost.
//! - `input`, `arrival`, `driver`: from the text that describes processes
//!   and the user's choice of policy to the trace.
//! - `sums`: sums over sequences.

pub mod system_state;
pub mod process;
pub mod scheduler;
pub mod log;
pub mod simulation;
pub mod sums;
pub mod work;
pub mod bounds;
pub mod routing;
pub mod history;
pub mod arrival;
pub mod driver;
pub mod input;
