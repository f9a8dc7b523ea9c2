//! The syscalls on mutexes, semaphores and condition variables, the switch
//! of the safety check, and sleep.
use crate::error::SyncError;
use crate::syscall::{acquire_code, acquire_number, release_code, release_number};
use crate::sync::Acquire;
use crate::task::control_block::TaskStatus;
use crate::task::current::deadline;
use crate::task::kernel::Kernel;
use crate::task::process::{fresh_mutex, fresh_semaphore, ProcessView};
use vstd::prelude::*;

verus! {

/// What the running thread's lock request on `mutex_id` comes to.
pub open spec fn lock_outcome(kernel: &Kernel, mutex_id: usize) -> Result<Acquire, SyncError> {
    if kernel.running().is_none() {
        Err(SyncError::InvalidHandle)
    } else {
        kernel.current_process().mutex_lock_outcome(kernel.current_tid(), mutex_id)
    }
}

/// What the running thread's unlock of `mutex_id` comes to.
pub open spec fn unlock_outcome(kernel: &Kernel, mutex_id: usize) -> Result<
    Option<usize>,
    SyncError,
> {
    if kernel.running().is_none() {
        Err(SyncError::InvalidHandle)
    } else {
        kernel.current_process().mutexes.release_outcome(kernel.current_tid(), mutex_id)
    }
}

/// What the running thread's down request on `sem_id` comes to.
pub open spec fn down_outcome(kernel: &Kernel, sem_id: usize) -> Result<Acquire, SyncError> {
    if kernel.running().is_none() {
        Err(SyncError::InvalidHandle)
    } else {
        kernel.current_process().semaphore_down_outcome(kernel.current_tid(), sem_id)
    }
}

/// What the running thread's up on `sem_id` comes to.
pub open spec fn up_outcome(kernel: &Kernel, sem_id: usize) -> Result<Option<usize>, SyncError> {
    if kernel.running().is_none() {
        Err(SyncError::InvalidHandle)
    } else {
        kernel.current_process().semaphores.release_outcome(kernel.current_tid(), sem_id)
    }
}

/// What a signal on `condvar_id` comes to.
pub open spec fn signal_outcome(kernel: &Kernel, condvar_id: usize) -> Result<
    Option<usize>,
    SyncError,
> {
    if kernel.running().is_none() {
        Err(SyncError::InvalidHandle)
    } else {
        kernel.current_process().condvars.signal_outcome(condvar_id)
    }
}

/// What the running thread's wait on `condvar_id` with `mutex_id` comes to.
pub open spec fn wait_outcome(kernel: &Kernel, condvar_id: usize, mutex_id: usize) -> Result<
    Option<usize>,
    SyncError,
> {
    if kernel.running().is_none() {
        Err(SyncError::InvalidHandle)
    } else {
        kernel.current_process().condvar_wait_outcome(kernel.current_tid(), condvar_id, mutex_id)
    }
}

/// Puts the running unit to sleep for `ms` milliseconds from `now_ms`: the
/// unit is blocked, and its deadline and unit are appended to `timers`, the
/// caller's timer queue, which has to wake the unit at or after the
/// deadline. Always returns 0.
pub fn sys_sleep(
    kernel: &mut Kernel,
    now_ms: usize,
    ms: usize,
    timers: &mut Vec<(usize, usize)>,
) -> (code: isize)
    requires
        old(kernel).wf(),
    ensures
        final(kernel).wf(),
        code == 0,
        final(kernel).processes@ == old(kernel).processes@,
        old(kernel).running().is_none() ==> {
            &&& old(kernel).same_schedule(final(kernel))
            &&& final(timers)@ == old(timers)@
        },
        old(kernel).running().is_some() ==> {
            &&& old(kernel).current_left(final(kernel), TaskStatus::Blocked)
            &&& final(kernel).sleeps(old(kernel).running().unwrap())
            &&& final(timers)@ == old(timers)@.push(
                (deadline(now_ms, ms), old(kernel).running().unwrap()),
            )
        },
{
    match kernel.sleep_current(now_ms, ms) {
        Some(timer) => {
            timers.push(timer);
        },
        None => {},
    }
    0
}

/// Creates a mutex in the running unit's process, queueing if `blocking`
/// and polling if not. Returns its id, the lowest free slot of the
/// process's mutex table; or -1, with nothing changed, if no unit runs or
/// the id would not fit the result.
pub fn sys_mutex_create(kernel: &mut Kernel, blocking: bool) -> (code: isize)
    requires
        old(kernel).wf(),
    ensures
        final(kernel).wf(),
        old(kernel).running().is_none() || old(kernel).current_process().mutexes.next_id()
            > isize::MAX ==> code == -1 && old(kernel).unchanged(final(kernel)),
        old(kernel).running().is_some() && old(kernel).current_process().mutexes.next_id()
            <= isize::MAX ==> {
            let view = old(kernel).current_process();
            &&& code == view.mutexes.next_id()
            &&& old(kernel).sync_step(
                final(kernel),
                old(kernel).current_pid(),
                ProcessView { mutexes: view.mutexes.created(fresh_mutex(blocking), 1), ..view },
                None,
                None,
            )
        },
{
    let (cur, pid, tid) = match kernel.current_thread() {
        Some(found) => found,
        None => {
            return -1;
        },
    };
    if kernel.processes[pid].mutexes.next_id() > isize::MAX as usize {
        return -1;
    }
    match kernel.mutex_create(blocking) {
        Ok(id) => id as isize,
        Err(_) => -1,
    }
}

/// Locks mutex `mutex_id` of the running unit's process for the running
/// thread.
///
/// Returns 0 if the thread holds the mutex now, or is parked and will hold
/// it when it runs again: blocked in the queue of a queueing mutex, or
/// ready to poll a polling one. Returns the deadlock sentinel if the
/// process checks for safety and the request would leave no order in which
/// every thread can finish; the request is then taken back in full.
/// Returns -1 for an id without a mutex, for a thread that waits already,
/// and with an idle processor.
pub fn sys_mutex_lock(kernel: &mut Kernel, mutex_id: usize) -> (code: isize)
    requires
        old(kernel).wf(),
    ensures
        final(kernel).wf(),
        code == acquire_code(lock_outcome(old(kernel), mutex_id)),
        old(kernel).mutex_lock_step(final(kernel), mutex_id, lock_outcome(old(kernel), mutex_id)),
{
    let outcome = kernel.mutex_lock(mutex_id);
    acquire_number(outcome)
}

/// Unlocks mutex `mutex_id` of the running unit's process for the running
/// thread. The earliest waiter, if there is one, holds the mutex from now
/// on and is ready. Returns 0; or -1, with nothing changed, for an id
/// without a mutex, for a thread that does not hold the mutex, and with an
/// idle processor.
pub fn sys_mutex_unlock(kernel: &mut Kernel, mutex_id: usize) -> (code: isize)
    requires
        old(kernel).wf(),
    ensures
        final(kernel).wf(),
        code == release_code(unlock_outcome(old(kernel), mutex_id)),
        old(kernel).mutex_unlock_step(
            final(kernel),
            mutex_id,
            unlock_outcome(old(kernel), mutex_id),
        ),
{
    let outcome = kernel.mutex_unlock(mutex_id);
    release_number(outcome)
}

/// Creates a semaphore of `res_count` units in the running unit's process.
/// Returns its id, the lowest free slot of the process's semaphore table;
/// or -1, with nothing changed, if no unit runs or the id would not fit the
/// result.
pub fn sys_semaphore_create(kernel: &mut Kernel, res_count: usize) -> (code: isize)
    requires
        old(kernel).wf(),
    ensures
        final(kernel).wf(),
        old(kernel).running().is_none() || old(kernel).current_process().semaphores.next_id()
            > isize::MAX ==> code == -1 && old(kernel).unchanged(final(kernel)),
        old(kernel).running().is_some() && old(kernel).current_process().semaphores.next_id()
            <= isize::MAX ==> {
            let view = old(kernel).current_process();
            &&& code == view.semaphores.next_id()
            &&& old(kernel).sync_step(
                final(kernel),
                old(kernel).current_pid(),
                ProcessView {
                    semaphores: view.semaphores.created(fresh_semaphore(res_count), res_count),
                    ..view
                },
                None,
                None,
            )
        },
{
    let (cur, pid, tid) = match kernel.current_thread() {
        Some(found) => found,
        None => {
            return -1;
        },
    };
    if kernel.processes[pid].semaphores.next_id() > isize::MAX as usize {
        return -1;
    }
    match kernel.semaphore_create(res_count) {
        Ok(id) => id as isize,
        Err(_) => -1,
    }
}

/// Raises semaphore `sem_id` for the running thread: the thread gives one
/// unit back, or, if it holds none, puts a further unit in. The earliest
/// waiter, if there is one, holds the unit from now on and is ready.
/// Returns 0; or -1, with nothing changed, for an id without a semaphore,
/// with an idle processor, and where the thread holds no unit and the
/// semaphore cannot grow.
pub fn sys_semaphore_up(kernel: &mut Kernel, sem_id: usize) -> (code: isize)
    requires
        old(kernel).wf(),
    ensures
        final(kernel).wf(),
        code == release_code(up_outcome(old(kernel), sem_id)),
        old(kernel).semaphore_up_step(final(kernel), sem_id, up_outcome(old(kernel), sem_id)),
{
    let outcome = kernel.semaphore_up(sem_id);
    release_number(outcome)
}

/// Takes one unit of semaphore `sem_id` for the running thread.
///
/// Returns 0 if the thread holds a unit now, or is blocked in the
/// semaphore's queue and will hold one when it runs again. Returns the
/// deadlock sentinel if the process checks for safety and the request
/// would leave no order in which every thread can finish; the request is
/// then taken back in full. Returns -1 for an id without a semaphore, for a
/// thread that waits already, and with an idle processor.
pub fn sys_semaphore_down(kernel: &mut Kernel, sem_id: usize) -> (code: isize)
    requires
        old(kernel).wf(),
    ensures
        final(kernel).wf(),
        code == acquire_code(down_outcome(old(kernel), sem_id)),
        old(kernel).semaphore_down_step(final(kernel), sem_id, down_outcome(old(kernel), sem_id)),
{
    let outcome = kernel.semaphore_down(sem_id);
    acquire_number(outcome)
}

/// Creates a condition variable in the running unit's process. Returns its
/// id, the lowest free slot of the process's table of condition variables;
/// or -1, with nothing changed, if no unit runs or the id would not fit the
/// result. The argument has no meaning.
pub fn sys_condvar_create(kernel: &mut Kernel, _arg: usize) -> (code: isize)
    requires
        old(kernel).wf(),
    ensures
        final(kernel).wf(),
        old(kernel).running().is_none() || old(kernel).current_process().condvars.next_id()
            > isize::MAX ==> code == -1 && old(kernel).unchanged(final(kernel)),
        old(kernel).running().is_some() && old(kernel).current_process().condvars.next_id()
            <= isize::MAX ==> {
            let view = old(kernel).current_process();
            &&& code == view.condvars.next_id()
            &&& old(kernel).sync_step(
                final(kernel),
                old(kernel).current_pid(),
                ProcessView { condvars: view.condvars.created(), ..view },
                None,
                None,
            )
        },
{
    let (cur, pid, tid) = match kernel.current_thread() {
        Some(found) => found,
        None => {
            return -1;
        },
    };
    if kernel.processes[pid].condvars.next_id() > isize::MAX as usize {
        return -1;
    }
    match kernel.condvar_create() {
        Ok(id) => id as isize,
        Err(_) => -1,
    }
}

/// Signals condition variable `condvar_id` of the running unit's process:
/// the earliest waiter leaves the queue and is ready; without waiters
/// nothing changes. Returns 0; or -1 for an id without a condition variable
/// and with an idle processor.
pub fn sys_condvar_signal(kernel: &mut Kernel, condvar_id: usize) -> (code: isize)
    requires
        old(kernel).wf(),
    ensures
        final(kernel).wf(),
        code == release_code(signal_outcome(old(kernel), condvar_id)),
        old(kernel).condvar_signal_step(
            final(kernel),
            condvar_id,
            signal_outcome(old(kernel), condvar_id),
        ),
{
    let outcome = kernel.condvar_signal(condvar_id);
    release_number(outcome)
}

/// Lets the running thread wait on condition variable `condvar_id`: in one
/// step it releases mutex `mutex_id` and is blocked in the condition
/// variable's queue. Returns 0; or -1, with nothing changed, for an id
/// without a condition variable or mutex, for a thread that does not hold
/// the mutex or waits already, and with an idle processor.
pub fn sys_condvar_wait(kernel: &mut Kernel, condvar_id: usize, mutex_id: usize) -> (code: isize)
    requires
        old(kernel).wf(),
    ensures
        final(kernel).wf(),
        code == release_code(wait_outcome(old(kernel), condvar_id, mutex_id)),
        old(kernel).condvar_wait_step(
            final(kernel),
            condvar_id,
            mutex_id,
            wait_outcome(old(kernel), condvar_id, mutex_id),
        ),
{
    let outcome = kernel.condvar_wait(condvar_id, mutex_id);
    release_number(outcome)
}

/// Switches the safety check of the running unit's process on (1) or off
/// (0). Returns 0; or -1, with nothing changed, for any other value and
/// with an idle processor.
pub fn sys_enable_deadlock_detect(kernel: &mut Kernel, enabled: usize) -> (code: isize)
    requires
        old(kernel).wf(),
    ensures
        final(kernel).wf(),
        code == (if old(kernel).running().is_some() && enabled <= 1 {
            0isize
        } else {
            -1isize
        }),
        old(kernel).running().is_none() ==> old(kernel).unchanged(final(kernel)),
        old(kernel).running().is_some() ==> old(kernel).sync_step(
            final(kernel),
            old(kernel).current_pid(),
            if enabled <= 1 {
                ProcessView { detect: enabled == 1, ..old(kernel).current_process() }
            } else {
                old(kernel).current_process()
            },
            None,
            None,
        ),
{
    match kernel.enable_deadlock_detect(enabled) {
        Ok(_) => 0,
        Err(_) => -1,
    }
}

} // verus!
