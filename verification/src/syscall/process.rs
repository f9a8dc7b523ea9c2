//! The syscalls on processes and on the running unit.
use crate::config::{MIN_PRIORITY, PAGE_SIZE};
use crate::task::dispatch::{dispatch_time, dispatch_time_ms};
use crate::task::control_block::{TaskControlBlock, TaskStatus};
use crate::task::kernel::Kernel;
use crate::task::process::ProcessView;
use vstd::prelude::*;

verus! {

/// A time of day.
#[derive(Debug)]
pub struct TimeVal {
    /// Whole seconds.
    pub sec: usize,
    /// Microseconds of the running second.
    pub usec: usize,
}

/// What a unit learns about itself.
pub struct TaskInfo {
    /// The unit's status.
    pub status: TaskStatus,
    /// How often the unit made each syscall.
    pub syscall_times: Vec<u32>,
    /// Milliseconds since the unit's first dispatch.
    pub time: usize,
}

/// The running unit exits with `exit_code`: it becomes a zombie and leaves
/// the processor; the main thread takes its process with it.
pub fn sys_exit(kernel: &mut Kernel, exit_code: i32)
    requires
        old(kernel).wf(),
    ensures
        final(kernel).wf(),
        old(kernel).exit_step(final(kernel), exit_code),
{
    kernel.exit_current_and_run_next(exit_code);
}

/// The running unit gives up the processor and joins the back of the ready
/// queue. Always returns 0.
pub fn sys_yield(kernel: &mut Kernel) -> (code: isize)
    requires
        old(kernel).wf(),
    ensures
        final(kernel).wf(),
        code == 0,
        final(kernel).processes@ == old(kernel).processes@,
        old(kernel).running().is_some() ==> old(kernel).current_left(
            final(kernel),
            TaskStatus::Ready,
        ),
        old(kernel).running().is_none() ==> old(kernel).same_schedule(final(kernel)),
{
    kernel.suspend_current_and_run_next();
    0
}

/// The process id of the running unit; -1 with an idle processor.
pub fn sys_getpid(kernel: &Kernel) -> (pid: isize)
    requires
        kernel.wf(),
    ensures
        pid == (if kernel.running().is_some() {
            kernel.current_pid()
        } else {
            -1
        }),
{
    match kernel.current_thread() {
        Some((cur, pid, tid)) => pid as isize,
        None => -1,
    }
}

/// Creates a child of the running unit's process with the address space
/// `child_space`, which the caller has made as a copy of the parent's. The
/// child has one thread, ready to run, and no resources. Returns the
/// child's process id; or -1, with nothing changed, with an idle processor
/// or a full process table.
pub fn sys_fork(kernel: &mut Kernel, child_space: usize) -> (code: isize)
    requires
        old(kernel).wf(),
    ensures
        final(kernel).wf(),
        old(kernel).running().is_none() || old(kernel).processes.len() >= isize::MAX ==> code == -1
            && old(kernel).unchanged(final(kernel)),
        old(kernel).running().is_some() && old(kernel).processes.len() < isize::MAX ==> {
            &&& code == old(kernel).processes.len()
            &&& old(kernel).spawned(
                final(kernel),
                Some(old(kernel).current_pid() as usize),
                child_space,
            )
        },
{
    let (cur, pid, tid) = match kernel.current_thread() {
        Some(found) => found,
        None => {
            return -1;
        },
    };
    match kernel.add_process(Some(pid), child_space) {
        Some(child) => child as isize,
        None => -1,
    }
}

/// Gives the running unit's process the address space that the caller has
/// loaded from a program image; `image` is empty where no such program was
/// found. Returns 0; or -1, with nothing changed, without an image or with
/// an idle processor.
pub fn sys_exec(kernel: &mut Kernel, image: Option<usize>) -> (code: isize)
    requires
        old(kernel).wf(),
    ensures
        final(kernel).wf(),
        code == (if image.is_some() && old(kernel).running().is_some() {
            0isize
        } else {
            -1isize
        }),
        code == -1 ==> old(kernel).unchanged(final(kernel)),
        code == 0 ==> old(kernel).same_schedule(final(kernel)) && old(kernel).process_became(
            final(kernel),
            old(kernel).current_pid(),
            ProcessView { memory_token: image.unwrap(), ..old(kernel).current_process() },
        ),
{
    match image {
        Some(memory_token) => {
            if kernel.replace_current_memory(memory_token) {
                0
            } else {
                -1
            }
        },
        None => -1,
    }
}

/// Waits for a child of the running unit's process without blocking.
///
/// Returns -1 if no child is wanted, where `pid` names the wanted child and
/// -1 stands for any; -2 if no wanted child has exited yet; and otherwise
/// the process id of the first wanted child that has exited. That child
/// leaves the list of children, and its exit code is stored in `exit_code`.
pub fn sys_waitpid(kernel: &mut Kernel, pid: isize, exit_code: &mut i32) -> (found: isize)
    requires
        old(kernel).wf(),
    ensures
        final(kernel).wf(),
        old(kernel).running().is_none() ==> found == -1 && old(kernel).unchanged(final(kernel))
            && *final(exit_code) == *old(exit_code),
        old(kernel).running().is_some() ==> {
            let at = old(kernel).first_exited(pid);
            let view = old(kernel).current_process();
            &&& found == old(kernel).waitpid_result(pid)
            &&& old(kernel).same_schedule(final(kernel))
            &&& found < 0 ==> {
                &&& final(kernel).processes@ == old(kernel).processes@
                &&& *final(exit_code) == *old(exit_code)
            }
            &&& found >= 0 ==> {
                &&& 0 <= at < view.children.len()
                &&& *final(exit_code) == old(kernel).processes[found as int].exit_code
                &&& old(kernel).process_became(
                    final(kernel),
                    old(kernel).current_pid(),
                    ProcessView { children: view.children.remove(at), ..view },
                )
            }
        },
{
    kernel.waitpid(pid, exit_code)
}

/// The time of day for the clock's `us` microseconds.
pub fn sys_get_time(us: usize) -> (time: TimeVal)
    ensures
        time.sec == us / 1_000_000,
        time.usec == us % 1_000_000,
{
    TimeVal { sec: us / 1_000_000, usec: us % 1_000_000 }
}

/// Gives the running unit the priority `prio`, which has to be at least 2.
/// Returns the priority; or -1, with nothing changed, for a lower one or
/// with an idle processor.
pub fn sys_set_priority(kernel: &mut Kernel, prio: isize) -> (code: isize)
    requires
        old(kernel).wf(),
    ensures
        final(kernel).wf(),
        code == (if prio >= MIN_PRIORITY && old(kernel).running().is_some() {
            prio
        } else {
            -1isize
        }),
        code == -1 ==> old(kernel).unchanged(final(kernel)),
        code != -1 ==> old(kernel).unit_became(
            final(kernel),
            old(kernel).running().unwrap() as int,
            TaskControlBlock {
                priority: prio as u64,
                ..old(kernel).tasks[old(kernel).running().unwrap() as int]
            },
        ),
{
    if prio < MIN_PRIORITY as isize {
        return -1;
    }
    if kernel.set_current_priority(prio as u64) {
        prio
    } else {
        -1
    }
}

/// Creates a child of the running unit's process from a program image
/// that the caller has loaded into the address space `image`; `image` is
/// empty where no such program was found. The child has one thread, ready
/// to run, and no resources. Returns the child's process id; or -1, with
/// nothing changed, without an image, with an idle processor or with a
/// full process table.
pub fn sys_spawn(kernel: &mut Kernel, image: Option<usize>) -> (code: isize)
    requires
        old(kernel).wf(),
    ensures
        final(kernel).wf(),
        image.is_none() || old(kernel).running().is_none() || old(kernel).processes.len()
            >= isize::MAX ==> code == -1 && old(kernel).unchanged(final(kernel)),
        image.is_some() && old(kernel).running().is_some() && old(kernel).processes.len()
            < isize::MAX ==> code == old(kernel).processes.len() && old(kernel).spawned(
            final(kernel),
            Some(old(kernel).current_pid() as usize),
            image.unwrap(),
        ),
{
    let memory_token: usize = match image {
        Some(memory_token) => memory_token,
        None => {
            return -1;
        },
    };
    let (cur, pid, tid) = match kernel.current_thread() {
        Some(found) => found,
        None => {
            return -1;
        },
    };
    match kernel.add_process(Some(pid), memory_token) {
        Some(child) => child as isize,
        None => -1,
    }
}

/// A range of memory to map or unmap, with the permission bits of a
/// mapping.
#[derive(Clone, Copy, PartialEq, Eq, Debug, Structural)]
pub struct MapRequest {
    /// The first address of the range.
    pub start: usize,
    /// The address behind the range.
    pub end: usize,
    /// The permission bits of the mapping: read, write and execute from
    /// the request, moved up by one bit, and the bit for user access.
    pub permission: u8,
}

/// The permission bits for the access `prot` of a mapping request: its
/// three bits moved up by one, and bit 4 for user access.
pub open spec fn permission_of(prot: usize) -> u8 {
    (2 * prot + 16) as u8
}

/// Checks a request to map `len` bytes from `start` with the access that
/// `prot` asks for, and returns the range and permission for the caller to
/// map. The request is refused, and the call returns -1, unless `start` is
/// the start of a page, `prot` has no bit beyond its low three and at least
/// one of them, and the range ends within the address space.
pub fn sys_mmap(start: usize, len: usize, prot: usize) -> (request: Option<MapRequest>)
    ensures
        request == (if start % PAGE_SIZE == 0 && 1 <= prot <= 7 && start + len <= usize::MAX {
            Some(
                MapRequest { start, end: (start + len) as usize, permission: permission_of(prot) },
            )
        } else {
            None
        }),
{
    if start % PAGE_SIZE != 0 || prot < 1 || prot > 7 {
        return None;
    }
    match start.checked_add(len) {
        Some(end) => Some(MapRequest { start, end, permission: (2 * prot + 16) as u8 }),
        None => None,
    }
}

/// The range of `len` bytes from `start` for the caller to unmap; nothing,
/// and the call returns -1, if the range does not end within the address
/// space.
pub fn sys_munmap(start: usize, len: usize) -> (range: Option<(usize, usize)>)
    ensures
        range == (if start + len <= usize::MAX {
            Some((start, (start + len) as usize))
        } else {
            None
        }),
{
    match start.checked_add(len) {
        Some(end) => Some((start, end)),
        None => None,
    }
}

/// What the running unit learns about itself at clock time `now_us`: that
/// it is running, how often it made each syscall, and the milliseconds
/// since its first dispatch, counted on a clock that wraps. Nothing with
/// an idle processor.
pub fn sys_task_info(kernel: &Kernel, now_us: usize) -> (info: Option<TaskInfo>)
    requires
        kernel.wf(),
    ensures
        info.is_some() == kernel.running().is_some(),
        info.is_some() ==> {
            let task = kernel.tasks[kernel.running().unwrap() as int];
            let info = info.unwrap();
            &&& info.status == TaskStatus::Running
            &&& info.syscall_times@ == task.syscall_times@
            &&& info.time == dispatch_time_ms(now_us).wrapping_sub(task.begin_time)
        },
{
    let cur: usize = match kernel.current_thread() {
        Some((cur, pid, tid)) => cur,
        None => {
            return None;
        },
    };
    let syscall_times = kernel.current_syscall_times();
    let now: usize = dispatch_time(now_us);
    Some(
        TaskInfo {
            status: TaskStatus::Running,
            syscall_times,
            time: now.wrapping_sub(kernel.tasks[cur].begin_time),
        },
    )
}

} // verus!
