//! The primitives that a resource ledger accounts for, behind one interface.
use crate::sync::mutex::Mutex;
use crate::sync::semaphore::Semaphore;
use crate::sync::{behind_head, head, Acquire};
use vstd::prelude::*;

verus! {

/// A primitive whose units a ledger counts.
pub enum Primitive {
    /// One unit, held by at most one thread.
    Mutex(Mutex),
    /// As many units as the semaphore was created with or has been given
    /// since.
    Semaphore(Semaphore),
}

/// The kinds of primitive.
#[derive(Clone, Copy, PartialEq, Eq, Debug, Structural)]
pub enum Kind {
    /// A mutex whose contenders poll.
    SpinMutex,
    /// A mutex whose contenders queue up.
    BlockingMutex,
    /// A counting semaphore.
    Semaphore,
}

/// A primitive as plain values.
pub struct PrimitiveView {
    /// Which kind it is.
    pub kind: Kind,
    /// Its free units.
    pub free: nat,
    /// Its blocked threads, earliest first.
    pub waiters: Seq<usize>,
}

impl PrimitiveView {
    /// Threads wait only while no unit is free; a mutex has one unit, and a
    /// polling mutex no queue.
    pub open spec fn wf(self) -> bool {
        &&& self.waiters.len() > 0 ==> self.free == 0
        &&& self.kind != Kind::Semaphore ==> self.free <= 1
        &&& self.kind == Kind::SpinMutex ==> self.waiters.len() == 0
    }

    /// Whether contenders queue up.
    pub open spec fn queues(self) -> bool {
        self.kind != Kind::SpinMutex
    }

    /// What an attempt to take a unit comes to.
    pub open spec fn acquire_outcome(self) -> Acquire {
        if self.free > 0 {
            Acquire::Granted
        } else if self.queues() {
            Acquire::Blocked
        } else {
            Acquire::Spin
        }
    }

    /// The primitive after thread `tid` tried to take a unit.
    pub open spec fn acquired(self, tid: usize) -> PrimitiveView {
        match self.acquire_outcome() {
            Acquire::Granted => PrimitiveView { free: (self.free - 1) as nat, ..self },
            Acquire::Blocked => PrimitiveView { waiters: self.waiters.push(tid), ..self },
            Acquire::Spin => self,
        }
    }

    /// The primitive after one unit was released: the unit went to the
    /// earliest waiter, or is free.
    pub open spec fn released(self) -> PrimitiveView {
        if self.waiters.len() > 0 {
            PrimitiveView { waiters: behind_head(self.waiters), ..self }
        } else if self.kind == Kind::Semaphore {
            PrimitiveView { free: self.free + 1, ..self }
        } else {
            PrimitiveView { free: 1, ..self }
        }
    }
}

impl View for Primitive {
    type V = PrimitiveView;

    open spec fn view(&self) -> PrimitiveView {
        match self {
            Primitive::Mutex(m) => PrimitiveView {
                kind: if m.is_blocking() {
                    Kind::BlockingMutex
                } else {
                    Kind::SpinMutex
                },
                free: if m.is_locked() {
                    0
                } else {
                    1
                },
                waiters: m.waiters(),
            },
            Primitive::Semaphore(s) => PrimitiveView {
                kind: Kind::Semaphore,
                free: s.count as nat,
                waiters: s.wait_queue@,
            },
        }
    }
}

impl Primitive {
    /// The primitive's own invariant holds.
    pub open spec fn wf(&self) -> bool {
        self@.wf()
    }

    /// Tries to take one unit for `tid`: grants it if one is free, queues
    /// `tid` if the primitive has a queue, and otherwise tells the caller to
    /// poll again.
    pub fn acquire(&mut self, tid: usize) -> (outcome: Acquire)
        requires
            old(self).wf(),
        ensures
            final(self).wf(),
            outcome == old(self)@.acquire_outcome(),
            final(self)@ == old(self)@.acquired(tid),
    {
        match self {
            Primitive::Mutex(m) => m.lock(tid),
            Primitive::Semaphore(s) => s.down(tid),
        }
    }

    /// Releases one unit and returns the thread that it went to, if a waiter
    /// took it over.
    pub fn release(&mut self) -> (woken: Option<usize>)
        requires
            old(self).wf(),
            old(self)@.waiters.len() > 0 || old(self)@.free < usize::MAX,
        ensures
            final(self).wf(),
            woken == head(old(self)@.waiters),
            final(self)@ == old(self)@.released(),
    {
        match self {
            Primitive::Mutex(m) => m.unlock(),
            Primitive::Semaphore(s) => s.up(),
        }
    }

    /// The thread that the next release wakes.
    pub fn get_waking_tid(&self) -> (tid: Option<usize>)
        ensures
            tid == head(self@.waiters),
    {
        match self {
            Primitive::Mutex(m) => m.get_waking_tid(),
            Primitive::Semaphore(s) => s.get_waking_tid(),
        }
    }
}

} // verus!
