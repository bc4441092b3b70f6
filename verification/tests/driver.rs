use schedsim::arrival::sort_by_arrival;
use schedsim::driver::{
    all_start_on_cpu, demand_within, fits_clock, into_queue, latest_arrival, on_choice, on_quantum,
    simulate, Algorithm, Selection, SimError,
};
use schedsim::process::{Burst, BurstKind, Process};
use schedsim::scheduler::SchedulerResult;
use std::collections::VecDeque;

fn cpu(remaining: u32) -> Burst {
    Burst { kind: BurstKind::Cpu, remaining }
}

fn io(remaining: u32) -> Burst {
    Burst { kind: BurstKind::Io, remaining }
}

fn job(pid: i32, arrival: i32, bursts: Vec<Burst>) -> Process {
    Process::new(format!("p{}", pid), pid, 1, bursts, arrival)
}

fn pids(queue: &Vec<Process>) -> Vec<i32> {
    queue.iter().map(|p| p.pid).collect()
}

#[test]
fn the_menu_has_three_entries() {
    assert_eq!(on_choice(1), Selection::Ready(Algorithm::Fcfs));
    assert_eq!(on_choice(2), Selection::Ready(Algorithm::Priority));
    assert_eq!(on_choice(3), Selection::AskQuantum);
    assert_eq!(on_choice(0), Selection::Unsupported);
    assert_eq!(on_choice(4), Selection::Unsupported);
    assert_eq!(on_choice(-1), Selection::Unsupported);
}

#[test]
fn a_quantum_has_to_be_positive() {
    assert_eq!(on_quantum(1), Some(Algorithm::RoundRobin { quantum: 1 }));
    assert_eq!(on_quantum(25), Some(Algorithm::RoundRobin { quantum: 25 }));
    assert_eq!(on_quantum(0), None);
    assert_eq!(on_quantum(-3), None);
}

#[test]
fn sorting_orders_by_arrival_and_keeps_ties_in_order() {
    let mut processes = vec![
        job(0, 5, vec![]),
        job(1, 2, vec![]),
        job(2, 5, vec![]),
        job(3, 0, vec![]),
        job(4, 2, vec![]),
        job(5, -1, vec![]),
    ];
    sort_by_arrival(&mut processes);
    assert_eq!(pids(&processes), vec![5, 3, 1, 4, 0, 2]);
    let mut none: Vec<Process> = vec![];
    sort_by_arrival(&mut none);
    assert!(none.is_empty());
    let mut sorted = vec![job(0, 1, vec![cpu(3)]), job(1, 2, vec![]), job(2, 3, vec![])];
    sort_by_arrival(&mut sorted);
    assert_eq!(sorted, vec![job(0, 1, vec![cpu(3)]), job(1, 2, vec![]), job(2, 3, vec![])]);
}

#[test]
fn the_latest_arrival_is_never_before_tick_zero() {
    assert_eq!(latest_arrival(&vec![]), 0);
    assert_eq!(latest_arrival(&vec![job(0, -5, vec![])]), 0);
    assert_eq!(latest_arrival(&vec![job(0, 3, vec![]), job(1, 9, vec![]), job(2, 4, vec![])]), 9);
}

#[test]
fn a_process_demands_its_units_and_a_tick_for_each_empty_burst() {
    assert_eq!(demand_within(&job(0, 0, vec![cpu(5), io(3), cpu(2)]), 100), Some(10));
    assert_eq!(demand_within(&job(0, 0, vec![cpu(5), io(3), cpu(2)]), 10), Some(10));
    assert_eq!(demand_within(&job(0, 0, vec![cpu(5), io(3), cpu(2)]), 9), None);
    assert_eq!(demand_within(&job(0, 0, vec![cpu(0), io(0)]), 5), Some(2));
    assert_eq!(demand_within(&job(0, 0, vec![]), 5), Some(1));
    assert_eq!(demand_within(&job(0, 0, vec![]), 0), None);
    assert_eq!(demand_within(&job(0, 0, vec![cpu(u32::MAX), io(u32::MAX)]), u32::MAX), None);
    assert_eq!(demand_within(&job(0, 0, vec![cpu(u32::MAX)]), u32::MAX), Some(u32::MAX));
}

#[test]
fn the_clock_fits_up_to_its_last_tick() {
    let max = i32::MAX;
    assert!(fits_clock(&vec![]));
    assert!(fits_clock(&vec![job(0, max - 1, vec![cpu(1)])]));
    assert!(!fits_clock(&vec![job(0, max, vec![cpu(1)])]));
    assert!(!fits_clock(&vec![job(0, max - 1, vec![cpu(1)]), job(1, 0, vec![])]));
    assert!(fits_clock(&vec![job(0, 0, vec![cpu(max as u32)])]));
    assert!(!fits_clock(&vec![job(0, 0, vec![cpu(max as u32), io(0)])]));
    assert!(!fits_clock(&vec![job(0, 0, vec![cpu(u32::MAX)])]));
    assert!(fits_clock(&vec![job(0, 10, vec![cpu(5)]), job(1, 20, vec![cpu(max as u32 - 25)])]));
    assert!(!fits_clock(&vec![job(0, 10, vec![cpu(5)]), job(1, 20, vec![cpu(max as u32 - 24)])]));
}

#[test]
fn every_process_has_to_start_on_the_cpu() {
    assert!(all_start_on_cpu(&vec![]));
    assert!(all_start_on_cpu(&vec![job(0, 0, vec![cpu(1), io(1)]), job(1, 0, vec![])]));
    assert!(!all_start_on_cpu(&vec![job(0, 0, vec![cpu(1)]), job(1, 0, vec![io(1), cpu(1)])]));
}

#[test]
fn a_queue_keeps_the_order_of_the_list() {
    let queue = into_queue(vec![job(0, 0, vec![]), job(1, 0, vec![]), job(2, 0, vec![])]);
    assert_eq!(queue, VecDeque::from(vec![job(0, 0, vec![]), job(1, 0, vec![]), job(2, 0, vec![])]));
    assert!(into_queue(vec![]).is_empty());
}

#[test]
fn simulate_refuses_a_quantum_that_is_not_positive() {
    let processes = || vec![job(0, 0, vec![io(1)])];
    assert_eq!(simulate(processes(), Algorithm::RoundRobin { quantum: 0 }), Err(SimError::Quantum));
    assert_eq!(simulate(vec![], Algorithm::RoundRobin { quantum: -7 }), Err(SimError::Quantum));
}

#[test]
fn simulate_refuses_a_process_that_starts_on_io() {
    let processes = || vec![job(0, 0, vec![cpu(1)]), job(1, i32::MAX, vec![io(1)])];
    assert_eq!(simulate(processes(), Algorithm::Fcfs), Err(SimError::WrongKind));
    assert_eq!(simulate(processes(), Algorithm::Priority), Err(SimError::WrongKind));
    assert_eq!(simulate(processes(), Algorithm::RoundRobin { quantum: 1 }), Err(SimError::WrongKind));
}

#[test]
fn simulate_refuses_a_run_that_the_clock_cannot_count() {
    assert_eq!(
        simulate(vec![job(0, 0, vec![cpu(u32::MAX)])], Algorithm::Fcfs),
        Err(SimError::ClockOverflow)
    );
    assert_eq!(
        simulate(vec![job(0, i32::MAX, vec![cpu(1)])], Algorithm::Priority),
        Err(SimError::ClockOverflow)
    );
}

#[test]
fn simulate_admits_the_processes_in_the_order_of_arrival() {
    let log = simulate(
        vec![job(0, 3, vec![cpu(1)]), job(1, 0, vec![cpu(2)]), job(2, 0, vec![cpu(1)])],
        Algorithm::Fcfs,
    )
    .unwrap();
    assert_eq!(pids(&log.entries[0].yet_to_arrive), vec![0]);
    assert_eq!(pids(&log.entries[0].cpu_queue), vec![1, 2]);
    assert_eq!(log.entries.len(), 4);
    assert_eq!(pids(&log.entries[3].finished_processes), vec![1, 2, 0]);
}

#[test]
fn simulate_runs_each_policy() {
    let processes = || {
        vec![
            Process::new("a".to_string(), 0, 2, vec![cpu(3)], 0),
            Process::new("b".to_string(), 1, 1, vec![cpu(2)], 0),
            Process::new("c".to_string(), 2, 3, vec![cpu(1)], 0),
        ]
    };
    let order = |algorithm: Algorithm| -> Vec<i32> {
        let log = simulate(processes(), algorithm).unwrap();
        assert_eq!(log.entries.len(), 6);
        log.entries
            .iter()
            .map(|e| match &e.cpu_process {
                SchedulerResult::Processing(p) | SchedulerResult::Finished(p) => p.pid,
                other => panic!("{:?}", other),
            })
            .collect()
    };
    assert_eq!(order(Algorithm::Fcfs), vec![0, 0, 0, 1, 1, 2]);
    assert_eq!(order(Algorithm::Priority), vec![1, 1, 0, 0, 0, 2]);
    assert_eq!(order(Algorithm::RoundRobin { quantum: 1 }), vec![0, 1, 2, 0, 1, 0]);
    assert_eq!(order(Algorithm::RoundRobin { quantum: 2 }), vec![0, 0, 1, 1, 2, 0]);
}

#[test]
fn simulate_ends_by_the_deadline() {
    let processes = || {
        vec![
            job(0, 4, vec![cpu(0), io(3), cpu(2)]),
            job(1, 0, vec![]),
            job(2, 9, vec![cpu(2), io(0)]),
            job(3, 1, vec![cpu(6)]),
        ]
    };
    let demand: u32 = processes().iter().map(|p| demand_within(p, u32::MAX).unwrap()).sum();
    let deadline = latest_arrival(&processes()) as usize + demand as usize;
    assert_eq!(deadline, 9 + 6 + 1 + 3 + 6);
    for algorithm in [Algorithm::Fcfs, Algorithm::Priority, Algorithm::RoundRobin { quantum: 2 }] {
        let log = simulate(processes(), algorithm).unwrap();
        assert!(log.entries.len() <= deadline);
        assert_eq!(log.entries.last().unwrap().finished_processes.len(), 4);
    }
    assert_eq!(simulate(vec![], Algorithm::Priority).unwrap().entries.len(), 1);
}

#[test]
fn simulate_serves_io_first_come_first_served() {
    let log = simulate(
        vec![
            Process::new("a".to_string(), 0, 9, vec![cpu(1), io(2)], 0),
            Process::new("b".to_string(), 1, 1, vec![cpu(1), io(1)], 0),
        ],
        Algorithm::Priority,
    )
    .unwrap();
    let io_order: Vec<i32> = log
        .entries
        .iter()
        .filter_map(|e| match &e.io_process {
            SchedulerResult::Processing(p) | SchedulerResult::Finished(p) => Some(p.pid),
            _ => None,
        })
        .collect();
    assert_eq!(io_order, vec![1, 0, 0]);
}
