use schedsim::process::{Burst, BurstKind, Process};
use schedsim::system_state::SystemState;

fn cpu(remaining: u32) -> Burst {
    Burst { kind: BurstKind::Cpu, remaining }
}

fn io(remaining: u32) -> Burst {
    Burst { kind: BurstKind::Io, remaining }
}

#[test]
fn system_state_starts_at_tick_zero() {
    let state = SystemState::new();
    assert_eq!(state.time, 0);
    assert_eq!(state, SystemState { time: 0 });
}

#[test]
fn new_keeps_every_field() {
    let p = Process::new("editor".to_string(), 7, 3, vec![cpu(5), io(2)], 11);
    assert_eq!(p.name, "editor");
    assert_eq!(p.pid, 7);
    assert_eq!(p.priority, 3);
    assert_eq!(p.arrival, 11);
    assert_eq!(p.bursts, vec![cpu(5), io(2)]);
}

#[test]
fn tick_takes_one_unit_off_the_active_burst_only() {
    let mut p = Process::new("a".to_string(), 0, 1, vec![cpu(5), io(3), cpu(2)], 0);
    p.tick(&SystemState { time: 0 });
    assert_eq!(p.bursts, vec![cpu(4), io(3), cpu(2)]);
    p.tick(&SystemState { time: 1 });
    assert_eq!(p.bursts, vec![cpu(3), io(3), cpu(2)]);
}

#[test]
fn tick_does_not_take_a_completed_burst_off() {
    let mut p = Process::new("a".to_string(), 0, 1, vec![cpu(1), io(3)], 0);
    p.tick(&SystemState { time: 4 });
    assert_eq!(p.bursts, vec![cpu(0), io(3)]);
}

#[test]
fn tick_never_goes_below_zero() {
    let mut p = Process::new("a".to_string(), 0, 1, vec![io(0), cpu(3)], 0);
    p.tick(&SystemState { time: 0 });
    assert_eq!(p.bursts, vec![io(0), cpu(3)]);
}

#[test]
fn tick_without_bursts_changes_nothing() {
    let mut p = Process::new("a".to_string(), 2, 1, vec![], -4);
    p.tick(&SystemState { time: 0 });
    assert_eq!(p, Process::new("a".to_string(), 2, 1, vec![], -4));
}

#[test]
fn tick_keeps_identity() {
    let mut p = Process::new("job".to_string(), 9, -2, vec![cpu(2)], 3);
    p.tick(&SystemState { time: 3 });
    assert_eq!(p.name, "job");
    assert_eq!(p.pid, 9);
    assert_eq!(p.priority, -2);
    assert_eq!(p.arrival, 3);
}

#[test]
fn clone_is_an_equal_process() {
    let p = Process::new("job".to_string(), 9, -2, vec![cpu(2), io(1)], 3);
    let q = p.clone();
    assert_eq!(p, q);
}

#[test]
fn other_kind_alternates() {
    assert_eq!(BurstKind::Cpu.other(), BurstKind::Io);
    assert_eq!(BurstKind::Io.other(), BurstKind::Cpu);
}
