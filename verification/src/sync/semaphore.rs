//! The counting semaphore.
use crate::sync::{behind_head, head, Acquire};
use std::collections::VecDeque;
use vstd::prelude::*;

verus! {

/// A counter of free units with a queue of the threads that found none.
///
/// A unit that is released while threads wait goes to the earliest waiter
/// at once and never shows in the counter.
pub struct Semaphore {
    /// The free units.
    pub count: usize,
    /// The blocked threads, earliest first.
    pub wait_queue: VecDeque<usize>,
}

impl Semaphore {
    /// Threads wait only while no unit is free.
    pub open spec fn wf(&self) -> bool {
        self.wait_queue@.len() > 0 ==> self.count == 0
    }

    /// A semaphore of `res_count` free units without waiters.
    pub fn new(res_count: usize) -> (sem: Semaphore)
        ensures
            sem.wf(),
            sem.count == res_count,
            sem.wait_queue@ == Seq::<usize>::empty(),
    {
        Semaphore { count: res_count, wait_queue: VecDeque::new() }
    }

    /// Takes one unit for `tid` if one is free; otherwise puts `tid` at the
    /// back of the wait queue.
    pub fn down(&mut self, tid: usize) -> (outcome: Acquire)
        requires
            old(self).wf(),
        ensures
            final(self).wf(),
            old(self).count > 0 ==> {
                &&& outcome == Acquire::Granted
                &&& final(self).count == old(self).count - 1
                &&& final(self).wait_queue@ == old(self).wait_queue@
            },
            old(self).count == 0 ==> {
                &&& outcome == Acquire::Blocked
                &&& final(self).count == 0
                &&& final(self).wait_queue@ == old(self).wait_queue@.push(tid)
            },
    {
        if self.count > 0 {
            self.count = self.count - 1;
            Acquire::Granted
        } else {
            self.wait_queue.push_back(tid);
            Acquire::Blocked
        }
    }

    /// Releases one unit. With waiters, the earliest leaves the queue and
    /// owns the unit; the caller has to make that thread ready. Without
    /// waiters the unit is free.
    pub fn up(&mut self) -> (woken: Option<usize>)
        requires
            old(self).wf(),
            old(self).wait_queue@.len() > 0 || old(self).count < usize::MAX,
        ensures
            final(self).wf(),
            woken == head(old(self).wait_queue@),
            woken.is_some() ==> final(self).count == 0 && final(self).wait_queue@ == behind_head(
                old(self).wait_queue@,
            ),
            woken.is_none() ==> {
                &&& final(self).count == old(self).count + 1
                &&& final(self).wait_queue@ == old(self).wait_queue@
            },
    {
        let woken = self.wait_queue.pop_front();
        if woken.is_none() {
            self.count = self.count + 1;
        }
        woken
    }

    /// The thread that the next `up` wakes.
    pub fn get_waking_tid(&self) -> (tid: Option<usize>)
        ensures
            tid == head(self.wait_queue@),
    {
        if self.wait_queue.len() > 0 {
            Some(self.wait_queue[0])
        } else {
            None
        }
    }
}

} // verus!
