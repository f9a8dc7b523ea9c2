//! What the running unit does to itself: its priority, its syscall counts,
//! its address space, and its sleep.
use crate::config::{MAX_SYSCALL_NUM, MIN_PRIORITY};
use crate::task::control_block::{TaskControlBlock, TaskStatus};
use crate::task::kernel::{fits, lemma_queue_pushes, lemma_rescheduled, Kernel};
use crate::task::process::ProcessView;
use vstd::prelude::*;

verus! {

/// The deadline of a sleep of `ms` milliseconds that starts at `now_ms`;
/// the latest time that the clock can show where the sum is beyond it.
pub open spec fn deadline(now_ms: usize, ms: usize) -> usize {
    if now_ms + ms > usize::MAX {
        usize::MAX
    } else {
        (now_ms + ms) as usize
    }
}

/// A count one higher, unless it is at its highest already.
pub open spec fn counted(count: u32) -> u32 {
    if count < u32::MAX {
        (count + 1) as u32
    } else {
        count
    }
}

impl Kernel {
    /// `after` differs from `self` in nothing but unit `unit`, which has
    /// become `task`.
    pub open spec fn unit_became(&self, after: &Kernel, unit: int, task: TaskControlBlock) -> bool {
        &&& after.processes@ == self.processes@
        &&& after.running() == self.running()
        &&& after.ready() == self.ready()
        &&& after.tasks@ == self.tasks@.update(unit, task)
    }

    /// After one unit changed in nothing that the scheduler's invariant
    /// speaks of, the state is well-formed.
    proof fn lemma_unit_became(&self, before: &Kernel, unit: int)
        requires
            before.wf(),
            0 <= unit < before.tasks.len(),
            before.unit_became(self, unit, self.tasks[unit]),
            self.tasks[unit].wf(),
            self.tasks[unit].pid == before.tasks[unit].pid,
            self.tasks[unit].tid == before.tasks[unit].tid,
            self.tasks[unit].status == before.tasks[unit].status,
        ensures
            self.wf(),
    {
        assert forall|p: int| 0 <= p < before.processes.len() implies {
            &&& (#[trigger] self.processes[p]).wf()
            &&& self.processes[p].pid == before.processes[p].pid
            &&& self.processes[p].threads@ == before.processes[p].threads@
            &&& self.processes[p].children@ == before.processes[p].children@
        } by {
            assert(before.process_ok(p));
            assert(self.processes@[p] == before.processes@[p]);
        }
        assert forall|u: int| 0 <= u < before.tasks.len() implies {
            &&& (#[trigger] self.tasks[u]).wf()
            &&& self.tasks[u].pid == before.tasks[u].pid
            &&& self.tasks[u].tid == before.tasks[u].tid
            &&& fits(self.tasks[u].status, self.waits(u))
            &&& (self.tasks[u].status == TaskStatus::Running <==> self.running() == Some(u as usize))
        } by {
            assert(before.unit_ok(u));
            let q = before.tasks[u].pid as int;
            assert(self.processes@[q] == before.processes@[q]);
        }
        assert(self.ready() =~= before.ready() + Seq::<usize>::empty());
        lemma_queue_pushes(before, self, Seq::<usize>::empty());
        lemma_rescheduled(before, self);
    }

    /// Gives the running unit the priority `priority`, which has to be at
    /// least 2. Returns whether the priority was set; a lower priority, or
    /// an idle processor, changes nothing.
    pub fn set_current_priority(&mut self, priority: u64) -> (set: bool)
        requires
            old(self).wf(),
        ensures
            final(self).wf(),
            set == (priority >= MIN_PRIORITY && old(self).running().is_some()),
            set ==> old(self).unit_became(
                final(self),
                old(self).running().unwrap() as int,
                TaskControlBlock {
                    priority,
                    ..old(self).tasks[old(self).running().unwrap() as int]
                },
            ),
            !set ==> old(self).unchanged(final(self)),
    {
        if priority < MIN_PRIORITY {
            return false;
        }
        let cur: usize = match self.processor.current() {
            Some(cur) => cur,
            None => {
                return false;
            },
        };
        assert(self.unit_ok(cur as int));
        self.tasks[cur].priority = priority;
        proof {
            self.lemma_unit_became(old(self), cur as int);
        }
        true
    }

    /// Counts one more call of syscall `syscall_id` for the running unit.
    /// A count at its highest stays there; an id outside the table, or an
    /// idle processor, changes nothing.
    pub fn update_current_syscall_times(&mut self, syscall_id: usize) -> (counted_it: bool)
        requires
            old(self).wf(),
        ensures
            final(self).wf(),
            counted_it == (syscall_id < MAX_SYSCALL_NUM && old(self).running().is_some()),
            !counted_it ==> old(self).unchanged(final(self)),
            counted_it ==> {
                let cur = old(self).running().unwrap() as int;
                &&& final(self).processes@ == old(self).processes@
                &&& final(self).running() == old(self).running()
                &&& final(self).ready() == old(self).ready()
                &&& final(self).tasks.len() == old(self).tasks.len()
                &&& forall|u: int|
                    0 <= u < old(self).tasks.len() && u != cur ==> final(self).tasks[u] == old(self).tasks[u]
                &&& final(self).tasks[cur].syscall_times@ == old(self).tasks[cur].syscall_times@.update(
                    syscall_id as int,
                    counted(old(self).tasks[cur].syscall_times[syscall_id as int]),
                )
                &&& final(self).tasks[cur].stride == old(self).tasks[cur].stride
                &&& final(self).tasks[cur].priority == old(self).tasks[cur].priority
                &&& final(self).tasks[cur].status == old(self).tasks[cur].status
                &&& final(self).tasks[cur].begin_time == old(self).tasks[cur].begin_time
            },
    {
        if syscall_id >= MAX_SYSCALL_NUM {
            return false;
        }
        let cur: usize = match self.processor.current() {
            Some(cur) => cur,
            None => {
                return false;
            },
        };
        assert(self.unit_ok(cur as int));
        let count: u32 = self.tasks[cur].syscall_times[syscall_id];
        if count < u32::MAX {
            self.tasks[cur].syscall_times[syscall_id] = count + 1;
        }
        proof {
            assert(self.tasks@ =~= old(self).tasks@.update(cur as int, self.tasks[cur as int]));
            self.lemma_unit_became(old(self), cur as int);
            assert(self.tasks[cur as int].syscall_times@ =~= old(self).tasks[cur as int].syscall_times@.update(
                syscall_id as int,
                counted(old(self).tasks[cur as int].syscall_times[syscall_id as int]),
            ));
        }
        true
    }

    /// The time of the running unit's first dispatch; 0 with an idle
    /// processor.
    pub fn current_begin_time(&self) -> (time: usize)
        requires
            self.wf(),
        ensures
            time == (if self.running().is_some() {
                self.tasks[self.running().unwrap() as int].begin_time
            } else {
                0
            }),
    {
        match self.processor.current() {
            Some(cur) => self.tasks[cur].begin_time,
            None => 0,
        }
    }

    /// How often the running unit made each syscall; an empty table with
    /// an idle processor.
    pub fn current_syscall_times(&self) -> (times: Vec<u32>)
        requires
            self.wf(),
        ensures
            times@ == (if self.running().is_some() {
                self.tasks[self.running().unwrap() as int].syscall_times@
            } else {
                Seq::<u32>::empty()
            }),
    {
        let mut times: Vec<u32> = Vec::new();
        let cur: usize = match self.processor.current() {
            Some(cur) => cur,
            None => {
                return times;
            },
        };
        let mut i: usize = 0;
        while i < self.tasks[cur].syscall_times.len()
            invariant
                cur < self.tasks.len(),
                i <= self.tasks[cur as int].syscall_times.len(),
                times@ == self.tasks[cur as int].syscall_times@.take(i as int),
            decreases self.tasks[cur as int].syscall_times.len() - i,
        {
            times.push(self.tasks[cur].syscall_times[i]);
            i = i + 1;
            assert(times@ =~= self.tasks[cur as int].syscall_times@.take(i as int));
        }
        assert(times@ =~= self.tasks[cur as int].syscall_times@);
        times
    }

    /// The address space of the running unit's process; nothing with an
    /// idle processor.
    pub fn current_user_token(&self) -> (token: Option<usize>)
        requires
            self.wf(),
        ensures
            token == (if self.running().is_some() {
                Some(self.current_process().memory_token)
            } else {
                None
            }),
    {
        match self.current_thread() {
            Some((cur, pid, tid)) => Some(self.processes[pid].memory_token),
            None => None,
        }
    }

    /// Gives the running unit's process the address space `memory_token`.
    /// Returns whether it was set: with an idle processor nothing changes.
    pub fn replace_current_memory(&mut self, memory_token: usize) -> (set: bool)
        requires
            old(self).wf(),
        ensures
            final(self).wf(),
            set == old(self).running().is_some(),
            !set ==> old(self).unchanged(final(self)),
            set ==> old(self).same_schedule(final(self)) && old(self).process_became(
                final(self),
                old(self).current_pid(),
                ProcessView { memory_token, ..old(self).current_process() },
            ),
    {
        let (cur, pid, tid) = match self.current_thread() {
            Some(found) => found,
            None => {
                return false;
            },
        };
        self.processes[pid].memory_token = memory_token;
        proof {
            let before = old(self);
            assert forall|p: int| 0 <= p < before.processes.len() implies {
                &&& (#[trigger] self.processes[p]).wf()
                &&& self.processes[p].pid == before.processes[p].pid
                &&& self.processes[p].threads@ == before.processes[p].threads@
                &&& self.processes[p].children@ == before.processes[p].children@
            } by {
                assert(before.process_ok(p));
            }
            assert forall|u: int| 0 <= u < before.tasks.len() implies {
                &&& (#[trigger] self.tasks[u]).wf()
                &&& self.tasks[u].pid == before.tasks[u].pid
                &&& self.tasks[u].tid == before.tasks[u].tid
                &&& fits(self.tasks[u].status, self.waits(u))
                &&& (self.tasks[u].status == TaskStatus::Running <==> self.running() == Some(
                    u as usize,
                ))
            } by {
                assert(before.unit_ok(u));
                let q = before.tasks[u].pid as int;
                assert(self.processes[q]@.wait_state(before.tasks[u].tid)
                    == before.processes[q]@.wait_state(before.tasks[u].tid));
            }
            assert(self.ready() =~= before.ready() + Seq::<usize>::empty());
            lemma_queue_pushes(before, self, Seq::<usize>::empty());
            lemma_rescheduled(before, self);
        }
        true
    }

    /// Puts the running unit to sleep until `ms` milliseconds after
    /// `now_ms`: the unit is blocked and leaves the processor, and its
    /// deadline is returned with it, for the caller's timer queue to wake it
    /// at or after the deadline. With an idle processor nothing happens.
    pub fn sleep_current(&mut self, now_ms: usize, ms: usize) -> (timer: Option<(usize, usize)>)
        requires
            old(self).wf(),
        ensures
            final(self).wf(),
            final(self).processes@ == old(self).processes@,
            old(self).running().is_none() ==> timer.is_none() && old(self).same_schedule(
                final(self),
            ),
            old(self).running().is_some() ==> timer == Some(
                (deadline(now_ms, ms), old(self).running().unwrap()),
            ) && old(self).current_left(final(self), TaskStatus::Blocked) && final(self).sleeps(
                old(self).running().unwrap(),
            ),
    {
        let cur: usize = match self.processor.current() {
            Some(cur) => cur,
            None => {
                return None;
            },
        };
        assert(self.unit_ok(cur as int));
        let expire_ms: usize = match now_ms.checked_add(ms) {
            Some(sum) => sum,
            None => usize::MAX,
        };
        self.block_current_and_run_next();
        proof {
            assert(self.processes@[old(self).tasks[cur as int].pid as int] == old(self).processes@[old(self).tasks[cur as int].pid as int]);
        }
        Some((expire_ms, cur))
    }
}

} // verus!
