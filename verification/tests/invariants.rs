use kernel_core::ledger::class::ResourceClass;
use kernel_core::sync::mutex::Mutex;
use kernel_core::sync::primitive::Primitive;
use kernel_core::syscall::process::{sys_fork, sys_set_priority, sys_yield};
use kernel_core::syscall::sync::{
    sys_condvar_create, sys_condvar_signal, sys_condvar_wait, sys_enable_deadlock_detect,
    sys_mutex_create, sys_mutex_lock, sys_mutex_unlock, sys_semaphore_create, sys_semaphore_down,
    sys_semaphore_up, sys_sleep,
};
use kernel_core::task::control_block::TaskStatus;
use kernel_core::task::dispatch::run_tasks;
use kernel_core::task::kernel::Kernel;

/// A small generator of numbers that look random and are the same in every
/// run.
struct Dice(u64);

impl Dice {
    fn roll(&mut self, sides: usize) -> usize {
        self.0 = self.0.wrapping_mul(6364136223846793005).wrapping_add(1442695040888963407);
        ((self.0 >> 33) as usize) % sides
    }
}

fn check_class(class: &ResourceClass, threads: usize, is_mutex_class: bool) {
    let resources = class.slots.len();
    assert_eq!(class.ledger.available.len(), resources);
    assert_eq!(class.ledger.total.len(), resources);
    assert_eq!(class.ledger.allocation.len(), threads);
    assert_eq!(class.ledger.need.len(), threads);
    assert_eq!(class.waiting.len(), threads);
    for t in 0..threads {
        assert_eq!(class.ledger.allocation[t].len(), resources);
        assert_eq!(class.ledger.need[t].len(), resources);
        for r in 0..resources {
            let waits = class.waiting[t] == Some(r);
            assert_eq!(class.ledger.need[t][r], waits as usize);
        }
    }
    for r in 0..resources {
        let held: usize = (0..threads).map(|t| class.ledger.allocation[t][r]).sum();
        assert_eq!(class.ledger.available[r] + held, class.ledger.total[r]);
        let waiters: Vec<usize> = (0..threads).filter(|&t| class.waiting[t] == Some(r)).collect();
        match &class.slots[r] {
            None => {
                assert_eq!(class.ledger.total[r], 0);
                assert!(waiters.is_empty());
            }
            Some(Primitive::Mutex(mutex)) => {
                assert!(is_mutex_class);
                assert_eq!(class.ledger.total[r], 1);
                let holders = (0..threads).filter(|&t| class.ledger.allocation[t][r] > 0).count();
                assert!(holders <= 1);
                match mutex {
                    Mutex::Spin(spin) => {
                        assert_eq!(spin.locked, class.ledger.available[r] == 0);
                    }
                    Mutex::Blocking(blocking) => {
                        assert_eq!(blocking.locked, class.ledger.available[r] == 0);
                        let mut queue: Vec<usize> = blocking.wait_queue.iter().copied().collect();
                        queue.sort();
                        assert_eq!(queue, waiters);
                    }
                }
            }
            Some(Primitive::Semaphore(semaphore)) => {
                assert!(!is_mutex_class);
                assert!(class.ledger.total[r] >= held);
                assert_eq!(semaphore.count, class.ledger.available[r]);
                let mut queue: Vec<usize> = semaphore.wait_queue.iter().copied().collect();
                queue.sort();
                assert_eq!(queue, waiters);
                if !queue.is_empty() {
                    assert_eq!(semaphore.count, 0);
                }
            }
        }
    }
}

fn check(kernel: &Kernel, timers: &[(usize, usize)]) {
    let running: Vec<usize> = (0..kernel.tasks.len())
        .filter(|&u| kernel.tasks[u].status == TaskStatus::Running)
        .collect();
    assert_eq!(running, kernel.processor.current.into_iter().collect::<Vec<_>>());
    let mut ready: Vec<usize> = (0..kernel.tasks.len())
        .filter(|&u| kernel.tasks[u].status == TaskStatus::Ready)
        .collect();
    let mut queued = kernel.manager.ready_queue.clone();
    queued.sort();
    ready.sort();
    assert_eq!(queued, ready);
    for (pid, process) in kernel.processes.iter().enumerate() {
        assert_eq!(process.pid, pid);
        let threads = process.threads.len();
        check_class(&process.mutexes, threads, true);
        check_class(&process.semaphores, threads, false);
        assert_eq!(process.condvars.waiting.len(), threads);
        for (tid, &unit) in process.threads.iter().enumerate() {
            let task = &kernel.tasks[unit];
            assert_eq!((task.pid, task.tid), (pid, tid));
            assert!(task.priority >= 2);
            let waits = [
                process.mutexes.waiting[tid].is_some(),
                process.semaphores.waiting[tid].is_some(),
                process.condvars.waiting[tid].is_some(),
            ];
            let parked = waits.iter().filter(|&&w| w).count();
            assert!(parked <= 1);
            let polls = process.mutexes.spinning_on(tid).is_some();
            if parked == 1 && !polls {
                assert_eq!(task.status, TaskStatus::Blocked);
            }
            if polls {
                assert_eq!(task.status, TaskStatus::Ready);
            }
            if task.status == TaskStatus::Running {
                assert_eq!(parked, 0);
            }
            if task.status == TaskStatus::Blocked && parked == 0 {
                assert!(timers.iter().any(|&(_, sleeper)| sleeper == unit));
            }
        }
        for (id, slot) in process.condvars.slots.iter().enumerate() {
            let waiters: Vec<usize> =
                (0..threads).filter(|&t| process.condvars.waiting[t] == Some(id)).collect();
            let mut queue: Vec<usize> = match slot {
                Some(condvar) => condvar.wait_queue.iter().copied().collect(),
                None => Vec::new(),
            };
            queue.sort();
            assert_eq!(queue, waiters);
        }
    }
}

fn random_walk(seed: u64, steps: usize) -> usize {
    let mut dice = Dice(seed);
    let mut kernel = Kernel::new();
    let mut timers: Vec<(usize, usize)> = Vec::new();
    let mut clock = 0usize;
    assert_eq!(kernel.add_process(None, 0), Some(0));
    for _ in 0..3 {
        assert!(kernel.add_thread(0).is_some());
    }
    let mut refused = 0;
    for _ in 0..steps {
        clock += 1 + dice.roll(3);
        // the timer queue
        let mut due = Vec::new();
        timers.retain(|&(deadline, unit)| {
            if deadline <= clock {
                due.push(unit);
                false
            } else {
                true
            }
        });
        for unit in due {
            assert!(kernel.wakeup_task(unit));
        }
        if kernel.processor.current.is_none() {
            run_tasks(&mut kernel, clock * 1000);
            check(&kernel, &timers);
            continue;
        }
        let id = dice.roll(4);
        let result = match dice.roll(16) {
            0 => sys_mutex_create(&mut kernel, dice.roll(3) > 0),
            1 => sys_semaphore_create(&mut kernel, dice.roll(3)),
            2 => sys_condvar_create(&mut kernel, 0),
            3 | 4 | 5 => sys_mutex_lock(&mut kernel, id),
            6 | 7 => sys_mutex_unlock(&mut kernel, id),
            8 | 9 => sys_semaphore_down(&mut kernel, id),
            10 => sys_semaphore_up(&mut kernel, id),
            11 => sys_condvar_wait(&mut kernel, id, dice.roll(4)),
            12 => sys_condvar_signal(&mut kernel, id),
            13 => sys_sleep(&mut kernel, clock, dice.roll(20), &mut timers),
            14 => match dice.roll(4) {
                0 => sys_enable_deadlock_detect(&mut kernel, dice.roll(3)),
                1 => sys_set_priority(&mut kernel, dice.roll(20) as isize),
                2 if kernel.processes.len() < 3 => {
                    let child = sys_fork(&mut kernel, 7);
                    assert!(kernel.add_thread(child as usize).is_some());
                    child
                }
                _ => sys_yield(&mut kernel),
            },
            _ => sys_yield(&mut kernel),
        };
        if result == -0xdead {
            refused += 1;
        }
        check(&kernel, &timers);
    }
    refused
}

#[test]
fn random_operations_keep_the_state_consistent() {
    random_walk(1, 4000);
}

#[test]
fn random_operations_keep_the_state_consistent_again() {
    random_walk(0xfeed, 4000);
    random_walk(99, 500);
}

#[test]
fn random_operations_meet_refused_requests() {
    let refused: usize = (2..12).map(|seed| random_walk(seed, 1500)).sum();
    assert!(refused > 0);
}
