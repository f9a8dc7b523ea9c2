//! The condition variable.
use crate::sync::{behind_head, head};
use std::collections::VecDeque;
use vstd::prelude::*;

verus! {

/// A queue of threads that wait to be signalled.
///
/// The condition variable knows no mutex. Whoever lets a thread wait
/// releases that thread's mutex in the same step, and a signalled thread
/// takes the mutex again by itself.
pub struct Condvar {
    /// The waiting threads, earliest first.
    pub wait_queue: VecDeque<usize>,
}

impl Condvar {
    /// A condition variable without waiters.
    pub fn new() -> (condvar: Condvar)
        ensures
            condvar.wait_queue@ == Seq::<usize>::empty(),
    {
        Condvar { wait_queue: VecDeque::new() }
    }

    /// Puts `tid` at the back of the wait queue; the caller has to block it.
    pub fn wait(&mut self, tid: usize)
        ensures
            final(self).wait_queue@ == old(self).wait_queue@.push(tid),
    {
        self.wait_queue.push_back(tid);
    }

    /// Takes the earliest waiter out of the queue and returns it for the
    /// caller to make ready. Without waiters nothing changes.
    pub fn signal(&mut self) -> (woken: Option<usize>)
        ensures
            woken == head(old(self).wait_queue@),
            final(self).wait_queue@ == signalled(old(self).wait_queue@),
    {
        self.wait_queue.pop_front()
    }
}

/// The wait queue after one signal.
pub open spec fn signalled(queue: Seq<usize>) -> Seq<usize> {
    if queue.len() > 0 {
        behind_head(queue)
    } else {
        queue
    }
}

/// One signal on a queue with a single waiter wakes that waiter and leaves
/// the queue empty, and a further signal then wakes nobody and changes
/// nothing.
pub proof fn lemma_signal_wakes_one_waiter(tid: usize)
    ensures
        head(seq![tid]) == Some(tid),
        signalled(seq![tid]) == Seq::<usize>::empty(),
        head(signalled(seq![tid])).is_none(),
        signalled(signalled(seq![tid])) == signalled(seq![tid]),
{
    assert(signalled(seq![tid]) =~= Seq::<usize>::empty());
}

/// A signal wakes at most one thread: the queue loses its head and nothing
/// else, or was empty and stays so.
pub proof fn lemma_signal_wakes_at_most_one(queue: Seq<usize>)
    ensures
        head(queue).is_some() ==> queue == seq![head(queue).unwrap()] + signalled(queue),
        head(queue).is_none() ==> signalled(queue) == queue,
{
    if queue.len() > 0 {
        assert(queue =~= seq![queue[0]] + behind_head(queue));
    }
}

} // verus!
