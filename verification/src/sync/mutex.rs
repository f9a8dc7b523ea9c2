//! The two kinds of mutex behind one interface.
use crate::sync::{behind_head, head, Acquire};
use std::collections::VecDeque;
use vstd::prelude::*;

verus! {

/// A mutex without a wait queue: a thread that finds it taken yields and
/// polls again.
pub struct MutexSpin {
    /// Whether some thread holds the mutex.
    pub locked: bool,
}

/// A mutex whose contenders block in a queue and are woken in the order in
/// which they came.
pub struct MutexBlocking {
    /// Whether some thread holds the mutex.
    pub locked: bool,
    /// The blocked contenders, earliest first.
    pub wait_queue: VecDeque<usize>,
}

/// A mutex of either kind.
pub enum Mutex {
    /// The polling kind.
    Spin(MutexSpin),
    /// The queueing kind.
    Blocking(MutexBlocking),
}

impl MutexSpin {
    /// A free mutex.
    pub fn new() -> (mutex: MutexSpin)
        ensures
            !mutex.locked,
    {
        MutexSpin { locked: false }
    }

    /// One poll: takes the mutex if it is free, and tells the caller to
    /// yield and poll again if it is not.
    pub fn lock(&mut self) -> (outcome: Acquire)
        ensures
            final(self).locked,
            outcome == (if old(self).locked {
                Acquire::Spin
            } else {
                Acquire::Granted
            }),
    {
        if self.locked {
            Acquire::Spin
        } else {
            self.locked = true;
            Acquire::Granted
        }
    }

    /// Frees the mutex.
    pub fn unlock(&mut self)
        ensures
            !final(self).locked,
    {
        self.locked = false;
    }

    /// The thread that the next `unlock` wakes: never one.
    pub fn get_waking_tid(&self) -> (tid: Option<usize>)
        ensures
            tid.is_none(),
    {
        None
    }
}

impl MutexBlocking {
    /// Threads wait only while the mutex is held.
    pub open spec fn wf(&self) -> bool {
        self.wait_queue@.len() > 0 ==> self.locked
    }

    /// A free mutex without waiters.
    pub fn new() -> (mutex: MutexBlocking)
        ensures
            mutex.wf(),
            !mutex.locked,
            mutex.wait_queue@ == Seq::<usize>::empty(),
    {
        MutexBlocking { locked: false, wait_queue: VecDeque::new() }
    }

    /// Takes the mutex for `tid` if it is free; otherwise puts `tid` at the
    /// back of the wait queue.
    pub fn lock(&mut self, tid: usize) -> (outcome: Acquire)
        requires
            old(self).wf(),
        ensures
            final(self).wf(),
            final(self).locked,
            !old(self).locked ==> {
                &&& outcome == Acquire::Granted
                &&& final(self).wait_queue@ == old(self).wait_queue@
            },
            old(self).locked ==> {
                &&& outcome == Acquire::Blocked
                &&& final(self).wait_queue@ == old(self).wait_queue@.push(tid)
            },
    {
        if self.locked {
            self.wait_queue.push_back(tid);
            Acquire::Blocked
        } else {
            self.locked = true;
            Acquire::Granted
        }
    }

    /// Releases the mutex. With waiters, the earliest leaves the queue and
    /// owns the mutex from now on, which therefore stays locked; the caller
    /// has to make that thread ready. Without waiters the mutex is free.
    pub fn unlock(&mut self) -> (woken: Option<usize>)
        requires
            old(self).wf(),
        ensures
            final(self).wf(),
            woken == head(old(self).wait_queue@),
            woken.is_some() ==> final(self).locked && final(self).wait_queue@ == behind_head(
                old(self).wait_queue@,
            ),
            woken.is_none() ==> {
                &&& !final(self).locked
                &&& final(self).wait_queue@ == old(self).wait_queue@
            },
    {
        let woken = self.wait_queue.pop_front();
        if woken.is_none() {
            self.locked = false;
        }
        woken
    }

    /// The thread that the next `unlock` wakes.
    pub fn get_waking_tid(&self) -> (tid: Option<usize>)
        ensures
            tid == head(self.wait_queue@),
    {
        if self.wait_queue.len() > 0 {
            Some(self.wait_queue[0])
        } else {
            None
        }
    }
}

impl Mutex {
    /// A free mutex of the queueing kind if `blocking`, of the polling kind
    /// if not.
    pub fn new(blocking: bool) -> (mutex: Mutex)
        ensures
            mutex.wf(),
            !mutex.is_locked(),
            mutex.waiters() == Seq::<usize>::empty(),
            mutex.is_blocking() == blocking,
    {
        if blocking {
            Mutex::Blocking(MutexBlocking::new())
        } else {
            Mutex::Spin(MutexSpin::new())
        }
    }

    /// Whether contenders queue up.
    pub open spec fn is_blocking(&self) -> bool {
        self is Blocking
    }

    /// Whether some thread holds the mutex.
    pub open spec fn is_locked(&self) -> bool {
        match self {
            Mutex::Spin(m) => m.locked,
            Mutex::Blocking(m) => m.locked,
        }
    }

    /// The blocked contenders, earliest first.
    pub open spec fn waiters(&self) -> Seq<usize> {
        match self {
            Mutex::Spin(_) => Seq::empty(),
            Mutex::Blocking(m) => m.wait_queue@,
        }
    }

    /// Threads wait only while the mutex is held.
    pub open spec fn wf(&self) -> bool {
        self.waiters().len() > 0 ==> self.is_locked()
    }

    /// What `lock` answers in this state.
    pub open spec fn lock_outcome(&self) -> Acquire {
        if !self.is_locked() {
            Acquire::Granted
        } else if self.is_blocking() {
            Acquire::Blocked
        } else {
            Acquire::Spin
        }
    }

    /// Takes the mutex for `tid` if it is free. If it is not, a queueing
    /// mutex puts `tid` at the back of its wait queue, and a polling mutex
    /// changes nothing.
    pub fn lock(&mut self, tid: usize) -> (outcome: Acquire)
        requires
            old(self).wf(),
        ensures
            final(self).wf(),
            final(self).is_locked(),
            final(self).is_blocking() == old(self).is_blocking(),
            outcome == old(self).lock_outcome(),
            final(self).waiters() == (if outcome == Acquire::Blocked {
                old(self).waiters().push(tid)
            } else {
                old(self).waiters()
            }),
    {
        match self {
            Mutex::Spin(m) => m.lock(),
            Mutex::Blocking(m) => m.lock(tid),
        }
    }

    /// Releases the mutex and returns the thread that now owns it, if a
    /// waiter took it over.
    pub fn unlock(&mut self) -> (woken: Option<usize>)
        requires
            old(self).wf(),
        ensures
            final(self).wf(),
            final(self).is_blocking() == old(self).is_blocking(),
            woken == head(old(self).waiters()),
            final(self).is_locked() == woken.is_some(),
            final(self).waiters() == (if woken.is_some() {
                behind_head(old(self).waiters())
            } else {
                old(self).waiters()
            }),
    {
        match self {
            Mutex::Spin(m) => {
                m.unlock();
                None
            },
            Mutex::Blocking(m) => m.unlock(),
        }
    }

    /// The thread that the next `unlock` wakes.
    pub fn get_waking_tid(&self) -> (tid: Option<usize>)
        ensures
            tid == head(self.waiters()),
    {
        match self {
            Mutex::Spin(m) => m.get_waking_tid(),
            Mutex::Blocking(m) => m.get_waking_tid(),
        }
    }
}

} // verus!
