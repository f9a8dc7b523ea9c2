use kernel_core::config::{BIG_STRIDE, DEFAULT_PRIORITY, MAX_SYSCALL_NUM};
use kernel_core::task::control_block::{TaskControlBlock, TaskStatus};
use kernel_core::task::manager::TaskManager;
use kernel_core::task::stride::{advance, comes_before, HALF_RANGE};

fn units(strides_and_priorities: &[(u64, u64)]) -> Vec<TaskControlBlock> {
    strides_and_priorities
        .iter()
        .enumerate()
        .map(|(i, &(stride, priority))| {
            let mut task = TaskControlBlock::new(0, i);
            task.stride = stride;
            task.priority = priority;
            task
        })
        .collect()
}

fn queue_of(n: usize) -> TaskManager {
    let mut manager = TaskManager::new();
    for unit in 0..n {
        manager.add(unit);
    }
    manager
}

#[test]
fn new_unit_is_ready_with_defaults() {
    let task = TaskControlBlock::new(3, 1);
    assert_eq!((task.pid, task.tid), (3, 1));
    assert_eq!(task.status, TaskStatus::Ready);
    assert_eq!(task.stride, 0);
    assert_eq!(task.priority, DEFAULT_PRIORITY);
    assert_eq!(task.begin_time, 0);
    assert_eq!(task.syscall_times, vec![0u32; MAX_SYSCALL_NUM]);
    assert!(!task.is_zombie());
}

#[test]
fn fetch_on_empty_queue_gives_nothing() {
    let mut manager = TaskManager::new();
    let mut tasks = units(&[(0, 2)]);
    assert_eq!(manager.fetch(&mut tasks), None);
    assert_eq!(tasks[0].stride, 0);
}

#[test]
fn fetch_takes_the_least_stride() {
    let mut tasks = units(&[(30, 2), (10, 2), (20, 2)]);
    let mut manager = queue_of(3);
    assert_eq!(manager.fetch(&mut tasks), Some(1));
    assert_eq!(manager.ready_queue, vec![0, 2]);
    assert_eq!(manager.fetch(&mut tasks), Some(2));
    assert_eq!(manager.fetch(&mut tasks), Some(0));
    assert_eq!(manager.fetch(&mut tasks), None);
}

#[test]
fn equal_strides_go_to_the_earliest_in_the_queue() {
    let mut tasks = units(&[(5, 2), (5, 2), (5, 2)]);
    let mut manager = TaskManager::new();
    manager.add(2);
    manager.add(0);
    manager.add(1);
    assert_eq!(manager.fetch(&mut tasks), Some(2));
    assert_eq!(manager.ready_queue, vec![0, 1]);
}

#[test]
fn fetch_advances_the_stride_by_the_pass() {
    let mut tasks = units(&[(100, 2), (0, 16), (7, 3)]);
    let mut manager = queue_of(3);
    assert_eq!(manager.fetch(&mut tasks), Some(1));
    assert_eq!(tasks[1].stride, BIG_STRIDE / 16);
    assert_eq!(tasks[1].stride, 0x0FFF_FFFF_FFFF_FFFF);
    assert_eq!(manager.fetch(&mut tasks), Some(2));
    assert_eq!(tasks[2].stride, 7 + BIG_STRIDE / 3);
    assert_eq!(tasks[0].stride, 100);
}

#[test]
fn pass_is_exact_and_wraps() {
    assert_eq!(advance(0, 2), 0x7FFF_FFFF_FFFF_FFFF);
    assert_eq!(advance(1, 2), 0x8000_0000_0000_0000);
    assert_eq!(advance(10, 4), 10 + 0x3FFF_FFFF_FFFF_FFFF);
    // past the end of the counter
    assert_eq!(advance(u64::MAX, 2), 0x7FFF_FFFF_FFFF_FFFE);
    assert_eq!(advance(0x8000_0000_0000_0001, 2), 0);
    let mut task = TaskControlBlock::new(0, 0);
    task.priority = 2;
    task.stride = u64::MAX - 1;
    task.update_stride();
    assert_eq!(task.stride, 0x7FFF_FFFF_FFFF_FFFD);
}

#[test]
fn comparison_is_by_circular_distance() {
    assert!(comes_before(1, 2));
    assert!(!comes_before(2, 1));
    assert!(!comes_before(5, 5));
    // a wrapped stride is later than one just below the counter's end
    assert!(comes_before(u64::MAX - 3, 2));
    assert!(!comes_before(2, u64::MAX - 3));
    // exactly half the circle apart: neither is before the other
    assert!(!comes_before(0, HALF_RANGE));
    assert!(!comes_before(HALF_RANGE, 0));
    assert!(comes_before(0, HALF_RANGE - 1));
    assert!(comes_before(HALF_RANGE + 1, 0));
}

#[test]
fn a_wrapped_stride_is_not_scheduled_early() {
    // unit 0 has wrapped past the counter's end, unit 1 has not yet
    let mut tasks = units(&[(3, 2), (u64::MAX - 10, 2)]);
    let mut manager = queue_of(2);
    assert_eq!(manager.fetch(&mut tasks), Some(1));
}

#[test]
fn dispatch_counts_follow_the_priorities() {
    let mut tasks = units(&[(0, 4), (0, 12)]);
    let mut manager = queue_of(2);
    let mut counts = [0u64; 2];
    for _ in 0..4000 {
        let unit = manager.fetch(&mut tasks).unwrap();
        counts[unit] += 1;
        manager.add(unit);
    }
    assert_eq!(counts[0] + counts[1], 4000);
    // priorities 4 : 12, so one in four dispatches goes to unit 0
    assert!((999..=1001).contains(&counts[0]), "{:?}", counts);
    assert!((2999..=3001).contains(&counts[1]), "{:?}", counts);
}

#[test]
fn dispatch_counts_stay_fair_across_the_wrap() {
    let start = u64::MAX - 1000;
    let mut tasks = units(&[(start, 2), (start, 6), (start, 8)]);
    let mut manager = queue_of(3);
    let mut counts = [0u64; 3];
    for _ in 0..1600 {
        let unit = manager.fetch(&mut tasks).unwrap();
        counts[unit] += 1;
        manager.add(unit);
    }
    // 2 : 6 : 8 of 1600 dispatches
    assert!((199..=201).contains(&counts[0]), "{:?}", counts);
    assert!((599..=601).contains(&counts[1]), "{:?}", counts);
    assert!((799..=801).contains(&counts[2]), "{:?}", counts);
}
