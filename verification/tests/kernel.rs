use kernel_core::config::{BIG_STRIDE, DEFAULT_PRIORITY, WOULD_DEADLOCK};
use kernel_core::error::SyncError;
use kernel_core::sync::Acquire;
use kernel_core::syscall::process::{
    sys_exec, sys_exit, sys_fork, sys_get_time, sys_getpid, sys_set_priority, sys_spawn,
    sys_waitpid, sys_yield,
};
use kernel_core::syscall::sync::{
    sys_condvar_create, sys_condvar_signal, sys_condvar_wait, sys_enable_deadlock_detect,
    sys_mutex_create, sys_mutex_lock, sys_mutex_unlock, sys_semaphore_create, sys_semaphore_down,
    sys_semaphore_up, sys_sleep,
};
use kernel_core::syscall::{acquire_number, release_number};
use kernel_core::task::control_block::TaskStatus;
use kernel_core::task::dispatch::{current_task, dispatch_time, run_tasks};
use kernel_core::task::kernel::Kernel;

/// A kernel with one process of `threads` threads; units are 0, 1, ...
fn kernel_with_threads(threads: usize) -> Kernel {
    let mut kernel = Kernel::new();
    assert_eq!(kernel.add_process(None, 0x1000), Some(0));
    for unit in 1..threads {
        assert_eq!(kernel.add_thread(0), Some(unit));
    }
    kernel
}

fn status(kernel: &Kernel, unit: usize) -> TaskStatus {
    kernel.tasks[unit].status
}

/// Runs dispatch steps until a unit is dispatched.
fn dispatch(kernel: &mut Kernel) -> usize {
    for _ in 0..64 {
        if let Some(unit) = run_tasks(kernel, 5_000_000) {
            return unit;
        }
    }
    panic!("nothing to dispatch");
}

/// Yields until `unit` runs.
fn switch_to(kernel: &mut Kernel, unit: usize) {
    for _ in 0..64 {
        if current_task(kernel) == Some(unit) {
            return;
        }
        sys_yield(kernel);
        dispatch(kernel);
    }
    panic!("unit {} never ran", unit);
}

#[test]
fn empty_kernel_has_nothing_to_run() {
    let mut kernel = Kernel::new();
    assert_eq!(run_tasks(&mut kernel, 0), None);
    assert_eq!(current_task(&kernel), None);
    assert_eq!(kernel.processor.take_current(), None);
    assert_eq!(kernel.current_user_token(), None);
    assert!(kernel.current_syscall_times().is_empty());
    assert_eq!(kernel.current_begin_time(), 0);
    assert_eq!(sys_getpid(&kernel), -1);
    assert_eq!(sys_yield(&mut kernel), 0);
    assert_eq!(sys_mutex_create(&mut kernel, true), -1);
    assert_eq!(sys_mutex_lock(&mut kernel, 0), -1);
    assert_eq!(sys_mutex_unlock(&mut kernel, 0), -1);
    assert_eq!(sys_semaphore_create(&mut kernel, 1), -1);
    assert_eq!(sys_semaphore_up(&mut kernel, 0), -1);
    assert_eq!(sys_semaphore_down(&mut kernel, 0), -1);
    assert_eq!(sys_condvar_create(&mut kernel, 0), -1);
    assert_eq!(sys_condvar_signal(&mut kernel, 0), -1);
    assert_eq!(sys_condvar_wait(&mut kernel, 0, 0), -1);
    assert_eq!(sys_enable_deadlock_detect(&mut kernel, 1), -1);
    assert_eq!(sys_set_priority(&mut kernel, 5), -1);
    assert_eq!(sys_fork(&mut kernel, 1), -1);
    assert_eq!(sys_exec(&mut kernel, Some(1)), -1);
    assert_eq!(sys_spawn(&mut kernel, Some(1)), -1);
    let mut code = 7;
    assert_eq!(sys_waitpid(&mut kernel, -1, &mut code), -1);
    assert_eq!(code, 7);
    sys_exit(&mut kernel, 3);
    let mut timers = Vec::new();
    assert_eq!(sys_sleep(&mut kernel, 10, 5, &mut timers), 0);
    assert!(timers.is_empty());
}

#[test]
fn dispatch_runs_one_unit_at_a_time() {
    let mut kernel = kernel_with_threads(3);
    assert_eq!(kernel.manager.ready_queue, vec![0, 1, 2]);
    assert_eq!(run_tasks(&mut kernel, 3_250_000), Some(0));
    assert_eq!(current_task(&kernel), Some(0));
    assert_eq!(status(&kernel, 0), TaskStatus::Running);
    assert_eq!(kernel.tasks[0].stride, BIG_STRIDE / DEFAULT_PRIORITY);
    assert_eq!(kernel.tasks[0].begin_time, 3_250);
    assert_eq!(kernel.manager.ready_queue, vec![1, 2]);
    // while a unit runs, nothing else is dispatched
    assert_eq!(run_tasks(&mut kernel, 3_300_000), None);
    assert_eq!(sys_yield(&mut kernel), 0);
    assert_eq!(current_task(&kernel), None);
    assert_eq!(status(&kernel, 0), TaskStatus::Ready);
    assert_eq!(kernel.manager.ready_queue, vec![1, 2, 0]);
    assert_eq!(run_tasks(&mut kernel, 4_000_000), Some(1));
    assert_eq!(kernel.tasks[1].begin_time, 4_000);
    let running: Vec<usize> =
        (0..3).filter(|&u| status(&kernel, u) == TaskStatus::Running).collect();
    assert_eq!(running, vec![1]);
}

#[test]
fn first_dispatch_time_is_kept() {
    let mut kernel = kernel_with_threads(1);
    assert_eq!(run_tasks(&mut kernel, 2_000_000), Some(0));
    assert_eq!(kernel.tasks[0].begin_time, 2_000);
    assert_eq!(kernel.current_begin_time(), 2_000);
    sys_yield(&mut kernel);
    assert_eq!(run_tasks(&mut kernel, 9_000_000), Some(0));
    assert_eq!(kernel.tasks[0].begin_time, 2_000);
}

#[test]
fn dispatch_time_formula() {
    assert_eq!(dispatch_time(0), 0);
    assert_eq!(dispatch_time(999), 0);
    assert_eq!(dispatch_time(1_000), 1);
    assert_eq!(dispatch_time(1_234_567), 1_234);
    // only the low 16 bits of the seconds count
    assert_eq!(dispatch_time(65_535_999_999), 65_535_999);
    assert_eq!(dispatch_time(65_536_000_000), 0);
    assert_eq!(dispatch_time(65_537_002_000), 1_002);
}

#[test]
fn time_of_day_splits_microseconds() {
    let time = sys_get_time(12_345_678);
    assert_eq!((time.sec, time.usec), (12, 345_678));
    let time = sys_get_time(999_999);
    assert_eq!((time.sec, time.usec), (0, 999_999));
}

#[test]
fn priority_is_admitted_from_two() {
    let mut kernel = kernel_with_threads(1);
    dispatch(&mut kernel);
    assert_eq!(sys_set_priority(&mut kernel, 1), -1);
    assert_eq!(sys_set_priority(&mut kernel, 0), -1);
    assert_eq!(sys_set_priority(&mut kernel, -5), -1);
    assert_eq!(kernel.tasks[0].priority, DEFAULT_PRIORITY);
    assert_eq!(sys_set_priority(&mut kernel, 2), 2);
    assert_eq!(kernel.tasks[0].priority, 2);
    assert_eq!(sys_set_priority(&mut kernel, 1000), 1000);
    assert_eq!(kernel.tasks[0].priority, 1000);
    assert!(!kernel.set_current_priority(1));
    assert!(kernel.set_current_priority(3));
}

#[test]
fn higher_priority_gets_more_dispatches() {
    let mut kernel = kernel_with_threads(2);
    dispatch(&mut kernel);
    sys_set_priority(&mut kernel, 2);
    switch_to(&mut kernel, 1);
    sys_set_priority(&mut kernel, 6);
    let before = [kernel.tasks[0].stride, kernel.tasks[1].stride];
    let mut counts = [0usize; 2];
    for _ in 0..800 {
        sys_yield(&mut kernel);
        counts[dispatch(&mut kernel)] += 1;
    }
    assert!((199..=202).contains(&counts[0]), "{:?}", counts);
    assert!((598..=601).contains(&counts[1]), "{:?}", counts);
    assert_ne!(before, [kernel.tasks[0].stride, kernel.tasks[1].stride]);
}

#[test]
fn syscall_counts_saturate() {
    let mut kernel = kernel_with_threads(1);
    assert!(!kernel.update_current_syscall_times(3));
    dispatch(&mut kernel);
    assert!(kernel.update_current_syscall_times(3));
    assert!(kernel.update_current_syscall_times(3));
    assert!(kernel.update_current_syscall_times(499));
    assert!(!kernel.update_current_syscall_times(500));
    assert_eq!(kernel.tasks[0].syscall_times[3], 2);
    assert_eq!(kernel.tasks[0].syscall_times[499], 1);
    assert_eq!(kernel.current_syscall_times()[3], 2);
    assert_eq!(kernel.current_syscall_times().len(), 500);
    kernel.tasks[0].syscall_times[7] = u32::MAX;
    assert!(kernel.update_current_syscall_times(7));
    assert_eq!(kernel.tasks[0].syscall_times[7], u32::MAX);
}

#[test]
fn blocking_lock_parks_and_unlock_wakes() {
    let mut kernel = kernel_with_threads(2);
    assert_eq!(dispatch(&mut kernel), 0);
    assert_eq!(sys_mutex_create(&mut kernel, true), 0);
    assert_eq!(sys_mutex_lock(&mut kernel, 0), 0);
    assert_eq!(current_task(&kernel), Some(0));
    switch_to(&mut kernel, 1);
    // unit 1 finds the mutex taken and is blocked
    assert_eq!(sys_mutex_lock(&mut kernel, 0), 0);
    assert_eq!(current_task(&kernel), None);
    assert_eq!(status(&kernel, 1), TaskStatus::Blocked);
    assert_eq!(kernel.manager.ready_queue, vec![0]);
    assert_eq!(kernel.processes[0].mutexes.ledger.need[1][0], 1);
    assert_eq!(dispatch(&mut kernel), 0);
    assert_eq!(sys_mutex_unlock(&mut kernel, 0), 0);
    // the mutex went to unit 1, which is ready again
    assert_eq!(status(&kernel, 1), TaskStatus::Ready);
    assert_eq!(kernel.manager.ready_queue, vec![1]);
    assert_eq!(kernel.processes[0].mutexes.ledger.allocation[1][0], 1);
    assert_eq!(kernel.processes[0].mutexes.ledger.allocation[0][0], 0);
    assert_eq!(kernel.processes[0].mutexes.ledger.need[1][0], 0);
    assert_eq!(kernel.processes[0].mutexes.ledger.available[0], 0);
    // unit 0 does not hold it any more
    assert_eq!(sys_mutex_unlock(&mut kernel, 0), -1);
    assert_eq!(sys_mutex_unlock(&mut kernel, 5), -1);
    assert_eq!(sys_mutex_lock(&mut kernel, 5), -1);
}

#[test]
fn deadlock_sentinel_is_returned_once() {
    let mut kernel = kernel_with_threads(2);
    assert_eq!(dispatch(&mut kernel), 0);
    assert_eq!(sys_enable_deadlock_detect(&mut kernel, 1), 0);
    let m1 = sys_mutex_create(&mut kernel, true) as usize;
    let m2 = sys_mutex_create(&mut kernel, true) as usize;
    assert_eq!(sys_mutex_lock(&mut kernel, m1), 0);
    switch_to(&mut kernel, 1);
    assert_eq!(sys_mutex_lock(&mut kernel, m2), 0);
    switch_to(&mut kernel, 0);
    // T1 asks for M2: safe, since T2 can still finish
    assert_eq!(sys_mutex_lock(&mut kernel, m2), 0);
    assert_eq!(status(&kernel, 0), TaskStatus::Blocked);
    assert_eq!(dispatch(&mut kernel), 1);
    // T2 asks for M1: would close the circle
    assert_eq!(sys_mutex_lock(&mut kernel, m1), WOULD_DEADLOCK);
    assert_eq!(WOULD_DEADLOCK, -0xdead);
    assert_eq!(current_task(&kernel), Some(1));
    assert_eq!(status(&kernel, 1), TaskStatus::Running);
    assert_eq!(kernel.processes[0].mutexes.ledger.need[1], vec![0, 0]);
    // T2 backs off; T1 gets M2 and is ready
    assert_eq!(sys_mutex_unlock(&mut kernel, m2), 0);
    assert_eq!(status(&kernel, 0), TaskStatus::Ready);
    switch_to(&mut kernel, 0);
    assert_eq!(sys_mutex_unlock(&mut kernel, m2), 0);
    assert_eq!(sys_mutex_unlock(&mut kernel, m1), 0);
    switch_to(&mut kernel, 1);
    assert_eq!(sys_mutex_lock(&mut kernel, m1), 0);
    assert_eq!(sys_mutex_lock(&mut kernel, m2), 0);
    assert_eq!(current_task(&kernel), Some(1));
}

#[test]
fn detection_is_off_by_default_and_takes_only_zero_and_one() {
    let mut kernel = kernel_with_threads(1);
    dispatch(&mut kernel);
    assert!(!kernel.processes[0].deadlock_detect);
    assert_eq!(sys_enable_deadlock_detect(&mut kernel, 2), -1);
    assert_eq!(sys_enable_deadlock_detect(&mut kernel, usize::MAX), -1);
    assert!(!kernel.processes[0].deadlock_detect);
    assert_eq!(sys_enable_deadlock_detect(&mut kernel, 1), 0);
    assert!(kernel.processes[0].deadlock_detect);
    assert_eq!(sys_enable_deadlock_detect(&mut kernel, 7), -1);
    assert!(kernel.processes[0].deadlock_detect);
    assert_eq!(sys_enable_deadlock_detect(&mut kernel, 0), 0);
    assert!(!kernel.processes[0].deadlock_detect);
    assert_eq!(
        kernel.processes[0].enable_deadlock_detect(3),
        Err(SyncError::InvalidArgument)
    );
}

#[test]
fn semaphore_down_blocks_and_up_wakes() {
    let mut kernel = kernel_with_threads(3);
    assert_eq!(dispatch(&mut kernel), 0);
    assert_eq!(sys_semaphore_create(&mut kernel, 1), 0);
    assert_eq!(sys_semaphore_create(&mut kernel, 0), 1);
    assert_eq!(sys_semaphore_down(&mut kernel, 0), 0);
    assert_eq!(sys_semaphore_down(&mut kernel, 9), -1);
    switch_to(&mut kernel, 1);
    assert_eq!(sys_semaphore_down(&mut kernel, 0), 0);
    assert_eq!(status(&kernel, 1), TaskStatus::Blocked);
    assert_eq!(dispatch(&mut kernel), 2);
    assert_eq!(sys_semaphore_down(&mut kernel, 0), 0);
    assert_eq!(status(&kernel, 2), TaskStatus::Blocked);
    assert_eq!(dispatch(&mut kernel), 0);
    assert_eq!(sys_semaphore_up(&mut kernel, 0), 0);
    assert_eq!(status(&kernel, 1), TaskStatus::Ready);
    assert_eq!(status(&kernel, 2), TaskStatus::Blocked);
    assert_eq!(kernel.processes[0].semaphores.ledger.allocation[1][0], 1);
    assert_eq!(kernel.processes[0].semaphores.ledger.allocation[0][0], 0);
    assert_eq!(kernel.processes[0].semaphores.ledger.total[0], 1);
    // unit 0 holds no unit any more: raising again puts a further unit in,
    // which goes to the next waiter
    assert_eq!(sys_semaphore_up(&mut kernel, 0), 0);
    assert_eq!(status(&kernel, 2), TaskStatus::Ready);
    assert_eq!(kernel.processes[0].semaphores.ledger.allocation[2][0], 1);
    assert_eq!(kernel.processes[0].semaphores.ledger.total[0], 2);
    assert_eq!(sys_semaphore_up(&mut kernel, 7), -1);
}

#[test]
fn semaphore_signals_from_one_thread_to_another() {
    let mut kernel = kernel_with_threads(2);
    assert_eq!(dispatch(&mut kernel), 0);
    assert_eq!(sys_semaphore_create(&mut kernel, 0), 0);
    // the consumer waits for a signal
    assert_eq!(sys_semaphore_down(&mut kernel, 0), 0);
    assert_eq!(status(&kernel, 0), TaskStatus::Blocked);
    assert_eq!(dispatch(&mut kernel), 1);
    // the producer raises the semaphore without having lowered it
    assert_eq!(sys_semaphore_up(&mut kernel, 0), 0);
    assert_eq!(status(&kernel, 0), TaskStatus::Ready);
    let ledger = &kernel.processes[0].semaphores.ledger;
    assert_eq!(ledger.available, vec![0]);
    assert_eq!(ledger.total, vec![1]);
    assert_eq!(ledger.allocation, vec![vec![1], vec![0]]);
    assert_eq!(ledger.need, vec![vec![0], vec![0]]);
    // a signal that nobody waits for stays in the semaphore
    assert_eq!(sys_semaphore_up(&mut kernel, 0), 0);
    assert_eq!(kernel.processes[0].semaphores.ledger.available, vec![1]);
    assert_eq!(kernel.processes[0].semaphores.ledger.total, vec![2]);
    assert_eq!(sys_semaphore_down(&mut kernel, 0), 0);
    assert_eq!(current_task(&kernel), Some(1));
}

#[test]
fn semaphore_down_is_checked_for_safety() {
    let mut kernel = kernel_with_threads(1);
    dispatch(&mut kernel);
    assert_eq!(sys_enable_deadlock_detect(&mut kernel, 1), 0);
    assert_eq!(sys_semaphore_create(&mut kernel, 0), 0);
    assert_eq!(sys_semaphore_down(&mut kernel, 0), WOULD_DEADLOCK);
    assert_eq!(current_task(&kernel), Some(0));
    assert_eq!(kernel.processes[0].semaphores.ledger.need[0][0], 0);
}

#[test]
fn condvar_wait_releases_the_mutex_and_signal_wakes() {
    let mut kernel = kernel_with_threads(2);
    assert_eq!(dispatch(&mut kernel), 0);
    assert_eq!(sys_mutex_create(&mut kernel, true), 0);
    assert_eq!(sys_condvar_create(&mut kernel, 0), 0);
    // waiting needs the mutex
    assert_eq!(sys_condvar_wait(&mut kernel, 0, 0), -1);
    assert_eq!(current_task(&kernel), Some(0));
    assert_eq!(sys_mutex_lock(&mut kernel, 0), 0);
    assert_eq!(sys_condvar_wait(&mut kernel, 1, 0), -1);
    assert_eq!(sys_condvar_wait(&mut kernel, 0, 0), 0);
    assert_eq!(status(&kernel, 0), TaskStatus::Blocked);
    assert_eq!(current_task(&kernel), None);
    assert_eq!(kernel.processes[0].mutexes.ledger.available[0], 1);
    assert_eq!(kernel.processes[0].mutexes.ledger.allocation[0][0], 0);
    assert_eq!(dispatch(&mut kernel), 1);
    assert_eq!(sys_mutex_lock(&mut kernel, 0), 0);
    assert_eq!(sys_condvar_signal(&mut kernel, 0), 0);
    assert_eq!(status(&kernel, 0), TaskStatus::Ready);
    assert_eq!(kernel.manager.ready_queue, vec![0]);
    // the woken waiter does not hold the mutex: it has to lock it itself
    assert_eq!(kernel.processes[0].mutexes.ledger.allocation[0][0], 0);
    // a second signal finds nobody and changes nothing
    assert_eq!(sys_condvar_signal(&mut kernel, 0), 0);
    assert_eq!(kernel.manager.ready_queue, vec![0]);
    assert_eq!(status(&kernel, 0), TaskStatus::Ready);
    assert_eq!(sys_condvar_signal(&mut kernel, 3), -1);
    assert_eq!(sys_mutex_unlock(&mut kernel, 0), 0);
    switch_to(&mut kernel, 0);
    assert_eq!(sys_mutex_lock(&mut kernel, 0), 0);
    assert_eq!(current_task(&kernel), Some(0));
}

#[test]
fn condvar_wait_hands_the_mutex_to_its_waiter() {
    let mut kernel = kernel_with_threads(2);
    assert_eq!(dispatch(&mut kernel), 0);
    sys_mutex_create(&mut kernel, true);
    sys_condvar_create(&mut kernel, 0);
    assert_eq!(sys_mutex_lock(&mut kernel, 0), 0);
    switch_to(&mut kernel, 1);
    assert_eq!(sys_mutex_lock(&mut kernel, 0), 0);
    assert_eq!(dispatch(&mut kernel), 0);
    assert_eq!(sys_condvar_wait(&mut kernel, 0, 0), 0);
    assert_eq!(status(&kernel, 0), TaskStatus::Blocked);
    assert_eq!(status(&kernel, 1), TaskStatus::Ready);
    assert_eq!(kernel.processes[0].mutexes.ledger.allocation[1][0], 1);
    assert_eq!(kernel.processes[0].condvars.waiting_for(0), Some(0));
}

#[test]
fn polling_mutex_is_polled_at_dispatch() {
    let mut kernel = kernel_with_threads(2);
    assert_eq!(dispatch(&mut kernel), 0);
    assert_eq!(sys_mutex_create(&mut kernel, false), 0);
    assert_eq!(sys_mutex_lock(&mut kernel, 0), 0);
    switch_to(&mut kernel, 1);
    // unit 1 finds the mutex taken: it yields and will poll
    assert_eq!(sys_mutex_lock(&mut kernel, 0), 0);
    assert_eq!(current_task(&kernel), None);
    assert_eq!(status(&kernel, 1), TaskStatus::Ready);
    assert_eq!(kernel.manager.ready_queue, vec![0, 1]);
    assert_eq!(dispatch(&mut kernel), 0);
    sys_yield(&mut kernel);
    // unit 1 is fetched, polls in vain and queues up again
    assert_eq!(kernel.manager.ready_queue, vec![1, 0]);
    let stride = kernel.tasks[1].stride;
    assert_eq!(run_tasks(&mut kernel, 0), None);
    assert_eq!(kernel.manager.ready_queue, vec![0, 1]);
    assert_eq!(kernel.tasks[1].stride, stride.wrapping_add(BIG_STRIDE / DEFAULT_PRIORITY));
    assert_eq!(dispatch(&mut kernel), 0);
    assert_eq!(sys_mutex_unlock(&mut kernel, 0), 0);
    sys_yield(&mut kernel);
    switch_to(&mut kernel, 1);
    assert_eq!(status(&kernel, 1), TaskStatus::Running);
    assert_eq!(kernel.processes[0].mutexes.ledger.allocation[1][0], 1);
    assert_eq!(kernel.processes[0].mutexes.ledger.need[1][0], 0);
    assert_eq!(sys_mutex_unlock(&mut kernel, 0), 0);
}

#[test]
fn resource_ids_are_per_table_and_reused() {
    let mut kernel = kernel_with_threads(1);
    dispatch(&mut kernel);
    assert_eq!(sys_mutex_create(&mut kernel, true), 0);
    assert_eq!(sys_mutex_create(&mut kernel, false), 1);
    assert_eq!(sys_semaphore_create(&mut kernel, 3), 0);
    assert_eq!(sys_condvar_create(&mut kernel, 0), 0);
    assert_eq!(sys_condvar_create(&mut kernel, 0), 1);
    assert_eq!(kernel.processes[0].mutex_remove(0), Ok(()));
    assert_eq!(sys_mutex_create(&mut kernel, true), 0);
    assert_eq!(kernel.processes[0].semaphore_remove(0), Ok(()));
    assert_eq!(kernel.processes[0].semaphore_remove(0), Err(SyncError::InvalidHandle));
    assert_eq!(sys_semaphore_create(&mut kernel, 1), 0);
    assert_eq!(kernel.processes[0].condvar_remove(0), Ok(()));
    assert_eq!(sys_condvar_create(&mut kernel, 0), 0);
    assert_eq!(sys_mutex_lock(&mut kernel, 0), 0);
    assert_eq!(kernel.processes[0].mutex_remove(0), Err(SyncError::Busy));
}

#[test]
fn sleep_blocks_until_the_timer_wakes() {
    let mut kernel = kernel_with_threads(2);
    let mut timers = Vec::new();
    assert_eq!(dispatch(&mut kernel), 0);
    assert_eq!(sys_sleep(&mut kernel, 1_000, 250, &mut timers), 0);
    assert_eq!(timers, vec![(1_250, 0)]);
    assert_eq!(status(&kernel, 0), TaskStatus::Blocked);
    assert_eq!(current_task(&kernel), None);
    assert_eq!(dispatch(&mut kernel), 1);
    assert_eq!(sys_sleep(&mut kernel, usize::MAX - 3, 10, &mut timers), 0);
    assert_eq!(timers, vec![(1_250, 0), (usize::MAX, 1)]);
    assert_eq!(run_tasks(&mut kernel, 0), None);
    assert!(kernel.wakeup_task(0));
    assert_eq!(status(&kernel, 0), TaskStatus::Ready);
    // a unit that does not sleep is not woken
    assert!(!kernel.wakeup_task(0));
    assert!(!kernel.wakeup_task(9));
    assert_eq!(kernel.manager.ready_queue, vec![0]);
    assert_eq!(dispatch(&mut kernel), 0);
}

#[test]
fn timer_does_not_wake_a_unit_that_waits_in_a_queue() {
    let mut kernel = kernel_with_threads(2);
    assert_eq!(dispatch(&mut kernel), 0);
    sys_mutex_create(&mut kernel, true);
    sys_mutex_lock(&mut kernel, 0);
    switch_to(&mut kernel, 1);
    sys_mutex_lock(&mut kernel, 0);
    assert_eq!(status(&kernel, 1), TaskStatus::Blocked);
    assert!(!kernel.wakeup_task(1));
    assert_eq!(status(&kernel, 1), TaskStatus::Blocked);
}

#[test]
fn fork_wait_and_exit() {
    let mut kernel = kernel_with_threads(1);
    assert_eq!(dispatch(&mut kernel), 0);
    assert_eq!(sys_getpid(&kernel), 0);
    let mut code = 0;
    // no children yet
    assert_eq!(sys_waitpid(&mut kernel, -1, &mut code), -1);
    assert_eq!(sys_fork(&mut kernel, 0x2000), 1);
    assert_eq!(sys_spawn(&mut kernel, None), -1);
    assert_eq!(sys_spawn(&mut kernel, Some(0x3000)), 2);
    assert_eq!(kernel.processes[0].children, vec![1, 2]);
    assert_eq!(kernel.processes[1].parent, Some(0));
    assert_eq!(kernel.processes[2].memory_token, 0x3000);
    assert_eq!(kernel.manager.ready_queue, vec![1, 2]);
    // children exist but run still; an unknown pid is no child
    assert_eq!(sys_waitpid(&mut kernel, -1, &mut code), -2);
    assert_eq!(sys_waitpid(&mut kernel, 2, &mut code), -2);
    assert_eq!(sys_waitpid(&mut kernel, 7, &mut code), -1);
    assert_eq!(sys_waitpid(&mut kernel, 0, &mut code), -1);
    assert_eq!(sys_waitpid(&mut kernel, -2, &mut code), -1);
    sys_yield(&mut kernel);
    // the second child runs and exits
    switch_to(&mut kernel, 2);
    assert_eq!(sys_getpid(&kernel), 2);
    sys_exit(&mut kernel, -17);
    assert_eq!(status(&kernel, 2), TaskStatus::Zombie);
    assert!(kernel.tasks[2].is_zombie());
    assert!(kernel.processes[2].is_zombie);
    assert_eq!(current_task(&kernel), None);
    dispatch(&mut kernel);
    switch_to(&mut kernel, 0);
    assert_eq!(sys_waitpid(&mut kernel, 1, &mut code), -2);
    assert_eq!(code, 0);
    assert_eq!(sys_waitpid(&mut kernel, -1, &mut code), 2);
    assert_eq!(code, -17);
    assert_eq!(kernel.processes[0].children, vec![1]);
    assert_eq!(sys_waitpid(&mut kernel, 2, &mut code), -1);
    // a zombie is never dispatched again
    for _ in 0..10 {
        sys_yield(&mut kernel);
        assert_ne!(dispatch(&mut kernel), 2);
    }
}

#[test]
fn waitpid_takes_the_first_exited_child() {
    let mut kernel = kernel_with_threads(1);
    dispatch(&mut kernel);
    for child in 1..=3 {
        assert_eq!(sys_fork(&mut kernel, child), child as isize);
    }
    for (child, exit_code) in [(3usize, 30), (2usize, 20)] {
        switch_to(&mut kernel, child);
        sys_exit(&mut kernel, exit_code);
        dispatch(&mut kernel);
    }
    switch_to(&mut kernel, 0);
    let mut code = 0;
    assert_eq!(sys_waitpid(&mut kernel, -1, &mut code), 2);
    assert_eq!(code, 20);
    assert_eq!(sys_waitpid(&mut kernel, -1, &mut code), 3);
    assert_eq!(code, 30);
    assert_eq!(sys_waitpid(&mut kernel, -1, &mut code), -2);
    assert_eq!(kernel.processes[0].children, vec![1]);
}

#[test]
fn exit_of_a_side_thread_keeps_the_process() {
    let mut kernel = kernel_with_threads(2);
    dispatch(&mut kernel);
    switch_to(&mut kernel, 1);
    sys_exit(&mut kernel, 4);
    assert_eq!(status(&kernel, 1), TaskStatus::Zombie);
    assert_eq!(kernel.tasks[1].exit_code, 4);
    assert!(!kernel.processes[0].is_zombie);
    assert_eq!(dispatch(&mut kernel), 0);
    sys_exit(&mut kernel, 5);
    assert!(kernel.processes[0].is_zombie);
    assert_eq!(kernel.processes[0].exit_code, 5);
}

#[test]
fn exec_replaces_the_address_space() {
    let mut kernel = kernel_with_threads(1);
    dispatch(&mut kernel);
    assert_eq!(sys_exec(&mut kernel, None), -1);
    assert_eq!(kernel.processes[0].memory_token, 0x1000);
    assert_eq!(kernel.current_user_token(), Some(0x1000));
    assert_eq!(sys_exec(&mut kernel, Some(0x8000)), 0);
    assert_eq!(kernel.processes[0].memory_token, 0x8000);
    assert_eq!(kernel.current_user_token(), Some(0x8000));
    assert_eq!(current_task(&kernel), Some(0));
}

#[test]
fn new_thread_gets_rows_in_every_ledger() {
    let mut kernel = kernel_with_threads(1);
    dispatch(&mut kernel);
    sys_mutex_create(&mut kernel, true);
    sys_semaphore_create(&mut kernel, 2);
    sys_semaphore_create(&mut kernel, 2);
    assert_eq!(kernel.add_thread(0), Some(1));
    assert_eq!(kernel.add_thread(5), None);
    assert_eq!(kernel.tasks[1].tid, 1);
    assert_eq!(kernel.processes[0].threads, vec![0, 1]);
    assert_eq!(kernel.processes[0].mutexes.ledger.allocation[1], vec![0]);
    assert_eq!(kernel.processes[0].mutexes.ledger.need[1], vec![0]);
    assert_eq!(kernel.processes[0].semaphores.ledger.allocation[1], vec![0, 0]);
    assert_eq!(kernel.processes[0].semaphores.ledger.need[1], vec![0, 0]);
    assert!(!kernel.processes[0].is_parked(1));
    assert!(!kernel.processes[0].is_spinning(1));
}

#[test]
fn processes_have_separate_resources() {
    let mut kernel = kernel_with_threads(1);
    dispatch(&mut kernel);
    assert_eq!(sys_mutex_create(&mut kernel, true), 0);
    assert_eq!(sys_mutex_lock(&mut kernel, 0), 0);
    assert_eq!(sys_fork(&mut kernel, 1), 1);
    switch_to(&mut kernel, 1);
    // the child has no mutex 0
    assert_eq!(sys_mutex_lock(&mut kernel, 0), -1);
    assert_eq!(sys_mutex_create(&mut kernel, true), 0);
    assert_eq!(sys_mutex_lock(&mut kernel, 0), 0);
    assert_eq!(current_task(&kernel), Some(1));
}

#[test]
fn result_numbers() {
    assert_eq!(acquire_number(Ok(Acquire::Granted)), 0);
    assert_eq!(acquire_number(Ok(Acquire::Blocked)), 0);
    assert_eq!(acquire_number(Ok(Acquire::Spin)), 0);
    assert_eq!(acquire_number(Err(SyncError::WouldDeadlock)), -57005);
    assert_eq!(acquire_number(Err(SyncError::InvalidHandle)), -1);
    assert_eq!(acquire_number(Err(SyncError::InvalidArgument)), -1);
    assert_eq!(release_number(Ok(None)), 0);
    assert_eq!(release_number(Ok(Some(3))), 0);
    assert_eq!(release_number(Err(SyncError::NotHeld)), -1);
    assert_eq!(release_number(Err(SyncError::Busy)), -1);
}
