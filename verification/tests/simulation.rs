use schedsim::log::{Log, TickEntry};
use schedsim::process::{Burst, BurstKind, Process};
use schedsim::scheduler::fcfs::FCFS;
use schedsim::scheduler::priority::Priority;
use schedsim::scheduler::round_robin::RoundRobin;
use schedsim::scheduler::{Scheduler, SchedulerResult};
use schedsim::simulation::{
    enqueue_all, run_sched, snapshot_of, snapshot_of_pending, start_sim, Simulation,
};
use schedsim::system_state::SystemState;
use std::collections::VecDeque;

fn cpu(remaining: u32) -> Burst {
    Burst { kind: BurstKind::Cpu, remaining }
}

fn io(remaining: u32) -> Burst {
    Burst { kind: BurstKind::Io, remaining }
}

fn job(name: &str, pid: i32, priority: i32, arrival: i32, bursts: Vec<Burst>) -> Process {
    Process::new(name.to_string(), pid, priority, bursts, arrival)
}

fn fcfs_pair() -> (FCFS, FCFS) {
    (FCFS::new(vec![], BurstKind::Cpu), FCFS::new(vec![], BurstKind::Io))
}

fn pids(queue: &Vec<Process>) -> Vec<i32> {
    queue.iter().map(|p| p.pid).collect()
}

fn credited(log: &Log, pid: i32) -> u32 {
    let mut n = 0;
    for entry in &log.entries {
        for result in [&entry.cpu_process, &entry.io_process] {
            match result {
                SchedulerResult::Processing(p) | SchedulerResult::Finished(p) if p.pid == pid => n += 1,
                _ => {}
            }
        }
    }
    n
}

#[test]
fn one_process_runs_its_bursts_in_turn() {
    let a = |bursts: Vec<Burst>| job("A", 0, 1, 0, bursts);
    let (cpu_sched, io_sched) = fcfs_pair();
    let log = start_sim(
        VecDeque::from(vec![a(vec![cpu(5), io(3), cpu(2)])]),
        cpu_sched,
        io_sched,
    );
    let entry = |cpu_process, io_process, cpu_queue, io_queue, finished_processes| TickEntry {
        cpu_process,
        io_process,
        cpu_queue,
        io_queue,
        yet_to_arrive: vec![],
        finished_processes,
    };
    let idle = || SchedulerResult::Idle;
    let expected = vec![
        entry(
            SchedulerResult::Processing(a(vec![cpu(4), io(3), cpu(2)])),
            idle(),
            vec![a(vec![cpu(4), io(3), cpu(2)])],
            vec![],
            vec![],
        ),
        entry(
            SchedulerResult::Processing(a(vec![cpu(3), io(3), cpu(2)])),
            idle(),
            vec![a(vec![cpu(3), io(3), cpu(2)])],
            vec![],
            vec![],
        ),
        entry(
            SchedulerResult::Processing(a(vec![cpu(2), io(3), cpu(2)])),
            idle(),
            vec![a(vec![cpu(2), io(3), cpu(2)])],
            vec![],
            vec![],
        ),
        entry(
            SchedulerResult::Processing(a(vec![cpu(1), io(3), cpu(2)])),
            idle(),
            vec![a(vec![cpu(1), io(3), cpu(2)])],
            vec![],
            vec![],
        ),
        entry(
            SchedulerResult::Finished(a(vec![io(3), cpu(2)])),
            idle(),
            vec![],
            vec![a(vec![io(3), cpu(2)])],
            vec![],
        ),
        entry(
            idle(),
            SchedulerResult::Processing(a(vec![io(2), cpu(2)])),
            vec![],
            vec![a(vec![io(2), cpu(2)])],
            vec![],
        ),
        entry(
            idle(),
            SchedulerResult::Processing(a(vec![io(1), cpu(2)])),
            vec![],
            vec![a(vec![io(1), cpu(2)])],
            vec![],
        ),
        entry(
            idle(),
            SchedulerResult::Finished(a(vec![cpu(2)])),
            vec![a(vec![cpu(2)])],
            vec![],
            vec![],
        ),
        entry(
            SchedulerResult::Processing(a(vec![cpu(1)])),
            idle(),
            vec![a(vec![cpu(1)])],
            vec![],
            vec![],
        ),
        entry(SchedulerResult::Finished(a(vec![])), idle(), vec![], vec![], vec![a(vec![])]),
    ];
    assert_eq!(log.entries.len(), 10);
    assert_eq!(log.entries, expected);
}

#[test]
fn an_arrival_does_not_interrupt_a_running_burst() {
    let x = |bursts: Vec<Burst>| job("X", 0, 5, 0, bursts);
    let y = |bursts: Vec<Burst>| job("Y", 1, 1, 2, bursts);
    let log = start_sim(
        VecDeque::from(vec![x(vec![cpu(4)]), y(vec![cpu(2)])]),
        Priority::new(vec![], BurstKind::Cpu),
        FCFS::new(vec![], BurstKind::Io),
    );
    let reports: Vec<SchedulerResult> = log.entries.iter().map(|e| e.cpu_process.clone()).collect();
    assert_eq!(
        reports,
        vec![
            SchedulerResult::Processing(x(vec![cpu(3)])),
            SchedulerResult::Processing(x(vec![cpu(2)])),
            SchedulerResult::Processing(x(vec![cpu(1)])),
            SchedulerResult::Finished(x(vec![])),
            SchedulerResult::Processing(y(vec![cpu(1)])),
            SchedulerResult::Finished(y(vec![])),
        ]
    );
    assert_eq!(pids(&log.entries[1].yet_to_arrive), vec![1]);
    assert_eq!(pids(&log.entries[1].cpu_queue), vec![0]);
    assert_eq!(pids(&log.entries[2].yet_to_arrive), Vec::<i32>::new());
    assert_eq!(pids(&log.entries[2].cpu_queue), vec![0, 1]);
    assert_eq!(pids(&log.entries[3].finished_processes), vec![0]);
    assert_eq!(pids(&log.entries[5].finished_processes), vec![0, 1]);
}

#[test]
fn a_lower_priority_value_waiting_at_selection_time_goes_first() {
    let log = start_sim(
        VecDeque::from(vec![
            job("X", 0, 5, 0, vec![cpu(2)]),
            job("Y", 1, 9, 1, vec![cpu(1)]),
            job("Z", 2, 1, 1, vec![cpu(1)]),
        ]),
        Priority::new(vec![], BurstKind::Cpu),
        FCFS::new(vec![], BurstKind::Io),
    );
    let order: Vec<i32> = log
        .entries
        .iter()
        .filter_map(|e| match &e.cpu_process {
            SchedulerResult::Finished(p) => Some(p.pid),
            _ => None,
        })
        .collect();
    assert_eq!(order, vec![0, 2, 1]);
}

#[test]
fn no_processes_take_one_idle_tick() {
    let (cpu_sched, io_sched) = fcfs_pair();
    let log = start_sim(VecDeque::new(), cpu_sched, io_sched);
    assert_eq!(
        log.entries,
        vec![TickEntry {
            cpu_process: SchedulerResult::Idle,
            io_process: SchedulerResult::Idle,
            cpu_queue: vec![],
            io_queue: vec![],
            yet_to_arrive: vec![],
            finished_processes: vec![],
        }]
    );
}

#[test]
fn the_schedulers_idle_until_the_first_arrival() {
    let p = |bursts: Vec<Burst>| job("late", 0, 1, 3, bursts);
    let (cpu_sched, io_sched) = fcfs_pair();
    let log = start_sim(VecDeque::from(vec![p(vec![cpu(1)])]), cpu_sched, io_sched);
    assert_eq!(log.entries.len(), 4);
    for entry in &log.entries[0..3] {
        assert_eq!(entry.cpu_process, SchedulerResult::Idle);
        assert_eq!(entry.io_process, SchedulerResult::Idle);
        assert_eq!(entry.yet_to_arrive, vec![p(vec![cpu(1)])]);
        assert!(entry.cpu_queue.is_empty());
    }
    assert_eq!(log.entries[3].cpu_process, SchedulerResult::Finished(p(vec![])));
    assert_eq!(log.entries[3].finished_processes, vec![p(vec![])]);
    assert!(log.entries[3].yet_to_arrive.is_empty());
}

#[test]
fn several_processes_arrive_in_one_tick() {
    let (cpu_sched, io_sched) = fcfs_pair();
    let log = start_sim(
        VecDeque::from(vec![
            job("a", 0, 1, 1, vec![cpu(1)]),
            job("b", 1, 1, 1, vec![cpu(1)]),
            job("c", 2, 1, 1, vec![cpu(1)]),
            job("d", 3, 1, 4, vec![cpu(1)]),
        ]),
        cpu_sched,
        io_sched,
    );
    assert_eq!(pids(&log.entries[0].yet_to_arrive), vec![0, 1, 2, 3]);
    assert_eq!(pids(&log.entries[1].yet_to_arrive), vec![3]);
    assert_eq!(pids(&log.entries[1].cpu_queue), vec![1, 2]);
    assert_eq!(pids(&log.entries[1].finished_processes), vec![0]);
    assert_eq!(log.entries.len(), 5);
    assert_eq!(pids(&log.entries[4].finished_processes), vec![0, 1, 2, 3]);
}

#[test]
fn a_process_behind_a_later_arrival_waits_for_it() {
    let (cpu_sched, io_sched) = fcfs_pair();
    let log = start_sim(
        VecDeque::from(vec![job("late", 0, 1, 2, vec![cpu(1)]), job("early", 1, 1, 0, vec![cpu(1)])]),
        cpu_sched,
        io_sched,
    );
    assert_eq!(log.entries.len(), 4);
    assert_eq!(log.entries[0].cpu_process, SchedulerResult::Idle);
    assert_eq!(log.entries[1].cpu_process, SchedulerResult::Idle);
    assert_eq!(pids(&log.entries[2].finished_processes), vec![0]);
    assert_eq!(pids(&log.entries[3].finished_processes), vec![0, 1]);
}

#[test]
fn a_completed_burst_sends_the_process_to_the_queue_of_its_next_burst() {
    let a = |bursts: Vec<Burst>| job("A", 0, 1, 0, bursts);
    let (cpu_sched, io_sched) = fcfs_pair();
    let log = start_sim(
        VecDeque::from(vec![a(vec![cpu(1), io(1), cpu(1)])]),
        cpu_sched,
        io_sched,
    );
    assert_eq!(log.entries.len(), 3);
    assert_eq!(log.entries[0].cpu_process, SchedulerResult::Finished(a(vec![io(1), cpu(1)])));
    assert_eq!(log.entries[0].io_process, SchedulerResult::Idle);
    assert_eq!(log.entries[0].io_queue, vec![a(vec![io(1), cpu(1)])]);
    assert!(log.entries[0].cpu_queue.is_empty());
    assert!(log.entries[0].finished_processes.is_empty());
    assert_eq!(log.entries[1].cpu_process, SchedulerResult::Idle);
    assert_eq!(log.entries[1].io_process, SchedulerResult::Finished(a(vec![cpu(1)])));
    assert_eq!(log.entries[1].cpu_queue, vec![a(vec![cpu(1)])]);
    assert!(log.entries[1].io_queue.is_empty());
    assert_eq!(log.entries[2].cpu_process, SchedulerResult::Finished(a(vec![])));
    assert_eq!(log.entries[2].finished_processes, vec![a(vec![])]);
}

#[test]
fn two_bursts_of_one_kind_in_a_row_go_back_to_the_same_queue() {
    let a = |bursts: Vec<Burst>| job("A", 0, 1, 0, bursts);
    let (cpu_sched, io_sched) = fcfs_pair();
    let log = start_sim(VecDeque::from(vec![a(vec![cpu(1), cpu(1)])]), cpu_sched, io_sched);
    assert_eq!(log.entries.len(), 2);
    assert_eq!(log.entries[0].cpu_queue, vec![a(vec![cpu(1)])]);
    assert!(log.entries[0].io_queue.is_empty());
    assert_eq!(log.entries[1].finished_processes, vec![a(vec![])]);
}

#[test]
fn both_schedulers_work_in_the_same_tick() {
    let (cpu_sched, io_sched) = fcfs_pair();
    let log = start_sim(
        VecDeque::from(vec![
            job("a", 0, 1, 0, vec![cpu(1), io(2)]),
            job("b", 1, 1, 0, vec![cpu(2)]),
        ]),
        cpu_sched,
        io_sched,
    );
    assert_eq!(log.entries.len(), 3);
    assert_eq!(
        log.entries[1].cpu_process,
        SchedulerResult::Processing(job("b", 1, 1, 0, vec![cpu(1)]))
    );
    assert_eq!(
        log.entries[1].io_process,
        SchedulerResult::Processing(job("a", 0, 1, 0, vec![io(1)]))
    );
    assert_eq!(pids(&log.entries[2].finished_processes), vec![1, 0]);
}

#[test]
fn a_process_is_never_reported_by_both_schedulers_in_one_tick() {
    let log = start_sim(
        VecDeque::from(vec![
            job("a", 0, 1, 0, vec![cpu(1), io(1), cpu(1), io(1)]),
            job("b", 1, 1, 0, vec![cpu(2), io(2), cpu(1)]),
            job("c", 2, 1, 1, vec![cpu(1), io(3)]),
        ]),
        RoundRobin::new(vec![], BurstKind::Cpu, 1),
        FCFS::new(vec![], BurstKind::Io),
    );
    for entry in &log.entries {
        let pid = |r: &SchedulerResult| match r {
            SchedulerResult::Processing(p)
            | SchedulerResult::Finished(p)
            | SchedulerResult::NoBurstLeft(p) => Some(p.pid),
            _ => None,
        };
        if let (Some(p), Some(q)) = (pid(&entry.cpu_process), pid(&entry.io_process)) {
            assert_ne!(p, q);
        }
    }
    assert_eq!(pids(&log.entries.last().unwrap().finished_processes).len(), 3);
}

#[test]
fn the_work_of_a_process_goes_down_by_the_ticks_credited_to_it() {
    let processes = vec![
        job("a", 0, 3, 0, vec![cpu(4), io(2), cpu(1)]),
        job("b", 1, 1, 1, vec![cpu(2), io(5)]),
        job("c", 2, 2, 1, vec![cpu(3)]),
    ];
    let work: Vec<u32> = processes
        .iter()
        .map(|p| p.bursts.iter().map(|b| b.remaining).sum())
        .collect();
    let log = start_sim(
        VecDeque::from(processes),
        RoundRobin::new(vec![], BurstKind::Cpu, 2),
        FCFS::new(vec![], BurstKind::Io),
    );
    assert_eq!(work, vec![7, 7, 3]);
    assert_eq!(credited(&log, 0), 7);
    assert_eq!(credited(&log, 1), 7);
    assert_eq!(credited(&log, 2), 3);
    assert_eq!(credited(&log, 3), 0);
}

#[test]
fn a_run_ends_within_the_work_and_the_latest_arrival() {
    let processes = vec![
        job("a", 0, 3, 0, vec![cpu(4), io(2), cpu(1)]),
        job("b", 1, 1, 2, vec![cpu(2), io(5)]),
        job("c", 2, 2, 30, vec![cpu(3)]),
    ];
    let (cpu_sched, io_sched) = fcfs_pair();
    let log = start_sim(VecDeque::from(processes), cpu_sched, io_sched);
    assert!(log.entries.len() <= 7 + 7 + 3 + 30);
    assert_eq!(log.entries.len(), 33);
}

#[test]
fn a_process_without_bursts_joins_the_finished_list() {
    let (cpu_sched, io_sched) = fcfs_pair();
    let log = start_sim(VecDeque::from(vec![job("none", 0, 1, 0, vec![])]), cpu_sched, io_sched);
    assert_eq!(log.entries.len(), 1);
    assert_eq!(
        log.entries[0].cpu_process,
        SchedulerResult::NoBurstLeft(job("none", 0, 1, 0, vec![]))
    );
    assert_eq!(log.entries[0].finished_processes, vec![job("none", 0, 1, 0, vec![])]);
}

#[test]
fn run_sched_sends_a_process_on_by_its_next_burst() {
    let state = SystemState::new();
    let mut finished = vec![];
    let mut to_cpu = vec![];
    let mut to_io = vec![];
    let mut sched = FCFS::new(
        vec![
            job("a", 0, 1, 0, vec![cpu(1), io(1)]),
            job("b", 1, 1, 0, vec![cpu(1), cpu(1)]),
            job("c", 2, 1, 0, vec![cpu(1)]),
            job("d", 3, 1, 0, vec![]),
            job("e", 4, 1, 0, vec![cpu(2)]),
        ],
        BurstKind::Cpu,
    );
    let result = run_sched(&mut sched, &state, &mut finished, &mut to_cpu, &mut to_io);
    assert_eq!(result, SchedulerResult::Finished(job("a", 0, 1, 0, vec![io(1)])));
    assert_eq!((pids(&finished), pids(&to_cpu), pids(&to_io)), (vec![], vec![], vec![0]));
    let result = run_sched(&mut sched, &state, &mut finished, &mut to_cpu, &mut to_io);
    assert_eq!(result, SchedulerResult::Finished(job("b", 1, 1, 0, vec![cpu(1)])));
    assert_eq!((pids(&finished), pids(&to_cpu), pids(&to_io)), (vec![], vec![1], vec![0]));
    let result = run_sched(&mut sched, &state, &mut finished, &mut to_cpu, &mut to_io);
    assert_eq!(result, SchedulerResult::Finished(job("c", 2, 1, 0, vec![])));
    assert_eq!((pids(&finished), pids(&to_cpu), pids(&to_io)), (vec![2], vec![1], vec![0]));
    let result = run_sched(&mut sched, &state, &mut finished, &mut to_cpu, &mut to_io);
    assert_eq!(result, SchedulerResult::NoBurstLeft(job("d", 3, 1, 0, vec![])));
    assert_eq!((pids(&finished), pids(&to_cpu), pids(&to_io)), (vec![2, 3], vec![1], vec![0]));
    let result = run_sched(&mut sched, &state, &mut finished, &mut to_cpu, &mut to_io);
    assert_eq!(result, SchedulerResult::Processing(job("e", 4, 1, 0, vec![cpu(1)])));
    assert_eq!((pids(&finished), pids(&to_cpu), pids(&to_io)), (vec![2, 3], vec![1], vec![0]));
    assert_eq!(pids(sched.get_queue()), vec![4]);
    assert_eq!(to_io, vec![job("a", 0, 1, 0, vec![io(1)])]);
}

#[test]
fn a_simulation_can_be_stepped_by_hand() {
    let mut sim = Simulation::new(
        VecDeque::from(vec![job("a", 0, 1, 0, vec![cpu(1)]), job("b", 1, 1, 5, vec![cpu(1)])]),
        FCFS::new(vec![], BurstKind::Cpu),
        FCFS::new(vec![], BurstKind::Io),
    );
    assert_eq!(sim.state.time, 0);
    assert!(!sim.is_done());
    sim.admit_arrivals();
    assert_eq!(pids(sim.cpu_sched.get_queue()), vec![0]);
    assert_eq!(sim.processes.len(), 1);
    let entry = sim.tick();
    assert_eq!(entry.cpu_process, SchedulerResult::Finished(job("a", 0, 1, 0, vec![])));
    assert_eq!(sim.state.time, 1);
    assert_eq!(pids(&sim.finished_process_queue), vec![0]);
    assert!(!sim.is_done());
    for _ in 1..5 {
        sim.tick();
    }
    assert_eq!(sim.state.time, 5);
    assert!(!sim.is_done());
    sim.tick();
    assert!(sim.is_done());
    assert_eq!(pids(&sim.finished_process_queue), vec![0, 1]);
}

#[test]
fn enqueue_all_keeps_the_order() {
    let mut sched = FCFS::new(vec![job("a", 0, 1, 0, vec![cpu(1)])], BurstKind::Cpu);
    enqueue_all(
        &mut sched,
        vec![job("b", 1, 1, 0, vec![cpu(1)]), job("c", 2, 1, 0, vec![cpu(1)])],
    );
    assert_eq!(pids(sched.get_queue()), vec![0, 1, 2]);
    enqueue_all(&mut sched, vec![]);
    assert_eq!(pids(sched.get_queue()), vec![0, 1, 2]);
}

#[test]
fn snapshots_copy_the_processes_in_order() {
    let processes = vec![job("a", 0, 1, 0, vec![cpu(1)]), job("b", 1, 2, 3, vec![io(4)])];
    assert_eq!(snapshot_of(&processes), processes);
    assert_eq!(snapshot_of_pending(&VecDeque::from(snapshot_of(&processes))), processes);
    assert_eq!(snapshot_of(&vec![]), vec![]);
}

#[test]
fn a_log_keeps_its_entries_in_order() {
    let mut log = Log::new();
    assert!(log.entries.is_empty());
    let entry = |time: i32| TickEntry {
        cpu_process: SchedulerResult::Idle,
        io_process: SchedulerResult::Idle,
        cpu_queue: vec![],
        io_queue: vec![],
        yet_to_arrive: vec![job("a", 0, 1, time, vec![])],
        finished_processes: vec![],
    };
    log.push(entry(1));
    log.push(entry(2));
    assert_eq!(log.entries, vec![entry(1), entry(2)]);
}
