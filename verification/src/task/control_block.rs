//! The record of one execution unit.
use crate::config::{DEFAULT_PRIORITY, MAX_SYSCALL_NUM, MIN_PRIORITY};
use crate::task::stride::{advance, advanced};
use vstd::prelude::*;

verus! {

/// Where an execution unit stands.
#[derive(Clone, Copy, PartialEq, Eq, Debug, Structural)]
pub enum TaskStatus {
    /// It waits in the ready queue for the processor.
    Ready,
    /// It has the processor.
    Running,
    /// It waits for a resource, a signal or a deadline.
    Blocked,
    /// It has exited; its exit code is valid.
    Zombie,
}

/// One execution unit: a thread of a process.
pub struct TaskControlBlock {
    /// The process that the unit belongs to.
    pub pid: usize,
    /// The unit's number among the threads of its process.
    pub tid: usize,
    /// Where the unit stands.
    pub status: TaskStatus,
    /// The unit's stride: it grows by the unit's pass at each dispatch.
    pub stride: u64,
    /// The unit's priority, never below the lowest one.
    pub priority: u64,
    /// How often the unit made each syscall.
    pub syscall_times: Vec<u32>,
    /// When the unit was first dispatched, in milliseconds; 0 before that.
    pub begin_time: usize,
    /// The exit code, valid once the unit is a zombie.
    pub exit_code: i32,
}

impl TaskControlBlock {
    /// The priority is admissible and the syscall table complete.
    pub open spec fn wf(&self) -> bool {
        &&& self.priority >= MIN_PRIORITY
        &&& self.syscall_times.len() == MAX_SYSCALL_NUM
    }

    /// A ready unit that has never run: thread `tid` of process `pid`.
    pub fn new(pid: usize, tid: usize) -> (task: TaskControlBlock)
        ensures
            task.wf(),
            task.pid == pid,
            task.tid == tid,
            task.status == TaskStatus::Ready,
            task.stride == 0,
            task.priority == DEFAULT_PRIORITY,
            task.begin_time == 0,
            task.exit_code == 0,
            forall|i: int| 0 <= i < MAX_SYSCALL_NUM ==> task.syscall_times[i] == 0,
    {
        let mut syscall_times: Vec<u32> = Vec::new();
        let mut i: usize = 0;
        while i < MAX_SYSCALL_NUM
            invariant
                i <= MAX_SYSCALL_NUM,
                syscall_times.len() == i,
                forall|k: int| 0 <= k < i ==> syscall_times[k] == 0,
            decreases MAX_SYSCALL_NUM - i,
        {
            syscall_times.push(0);
            i = i + 1;
        }
        TaskControlBlock {
            pid,
            tid,
            status: TaskStatus::Ready,
            stride: 0,
            priority: DEFAULT_PRIORITY,
            syscall_times,
            begin_time: 0,
            exit_code: 0,
        }
    }

    /// Advances the stride by the unit's pass, wrapping at the counter's end.
    pub fn update_stride(&mut self)
        requires
            old(self).priority >= MIN_PRIORITY,
        ensures
            *final(self) == (TaskControlBlock {
                stride: advanced(old(self).stride, old(self).priority),
                ..*old(self)
            }),
    {
        self.stride = advance(self.stride, self.priority);
    }

    /// Whether the unit has exited.
    pub fn is_zombie(&self) -> (zombie: bool)
        ensures
            zombie == (self.status == TaskStatus::Zombie),
    {
        self.status == TaskStatus::Zombie
    }
}

} // verus!
