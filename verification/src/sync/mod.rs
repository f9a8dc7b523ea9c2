//! Blocking primitives: mutexes, the counting semaphore and the condition
//! variable. Each owns its wait queue of thread ids and wakes in the order
//! of arrival; none touches the scheduler, so every operation reports what
//! the caller has to do with the thread.
use vstd::prelude::*;

pub mod condvar;
pub mod condvars;
pub mod mutex;
pub mod primitive;
pub mod semaphore;

verus! {

/// What an attempt to take a unit of a resource came to.
#[derive(Clone, Copy, PartialEq, Eq, Debug, Structural)]
pub enum Acquire {
    /// The caller now holds the unit.
    Granted,
    /// The caller stands in the wait queue and has to block until it is woken;
    /// it then holds the unit.
    Blocked,
    /// The resource is taken and has no wait queue: the caller has to yield
    /// and try again.
    Spin,
}

/// The threads of `queue` behind its head: what is left once the earliest
/// waiter has been woken.
pub open spec fn behind_head(queue: Seq<usize>) -> Seq<usize> {
    queue.subrange(1, queue.len() as int)
}

/// The earliest waiter of `queue`, if it has one.
pub open spec fn head(queue: Seq<usize>) -> Option<usize> {
    if queue.len() > 0 {
        Some(queue[0])
    } else {
        None
    }
}

} // verus!
