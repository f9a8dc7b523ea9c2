//! The ready queue and the choice of the next unit by stride.
use crate::config::MIN_PRIORITY;
use crate::task::control_block::TaskControlBlock;
use crate::task::stride::{advanced, comes_before, lemma_pick_in_range, pick};
use vstd::prelude::*;

verus! {

/// The units that are ready to run, in the order in which they came.
/// Units are named by their position in the kernel's table of units.
pub struct TaskManager {
    /// The ready units, earliest first.
    pub ready_queue: Vec<usize>,
}

/// The strides of the queued units, in queue order.
pub open spec fn queue_strides(queue: Seq<usize>, tasks: Seq<TaskControlBlock>) -> Seq<u64> {
    Seq::new(queue.len(), |i: int| tasks[queue[i] as int].stride)
}

/// Every queued unit is in the table and has an admissible priority.
pub open spec fn queue_valid(queue: Seq<usize>, tasks: Seq<TaskControlBlock>) -> bool {
    forall|i: int|
        0 <= i < queue.len() ==> (#[trigger] queue[i]) < tasks.len() && tasks[queue[i] as int].priority
            >= MIN_PRIORITY
}

impl TaskManager {
    /// An empty ready queue.
    pub fn new() -> (manager: TaskManager)
        ensures
            manager.ready_queue@ == Seq::<usize>::empty(),
    {
        TaskManager { ready_queue: Vec::new() }
    }

    /// Puts unit `task` at the back of the ready queue.
    pub fn add(&mut self, task: usize)
        ensures
            final(self).ready_queue@ == old(self).ready_queue@.push(task),
    {
        self.ready_queue.push(task);
    }

    /// Takes the unit that is due first out of the ready queue and advances
    /// its stride by its pass. The unit due first is the one that
    /// `pick` finds among the queued strides: the least stride, and of
    /// equal ones the earliest in the queue. An empty queue gives nothing.
    pub fn fetch(&mut self, tasks: &mut Vec<TaskControlBlock>) -> (task: Option<usize>)
        requires
            queue_valid(old(self).ready_queue@, old(tasks)@),
        ensures
            old(self).ready_queue@.len() == 0 ==> {
                &&& task.is_none()
                &&& final(self).ready_queue@ == old(self).ready_queue@
                &&& final(tasks)@ == old(tasks)@
            },
            old(self).ready_queue@.len() > 0 ==> {
                let at = pick(queue_strides(old(self).ready_queue@, old(tasks)@));
                let unit = old(self).ready_queue@[at];
                &&& 0 <= at < old(self).ready_queue@.len()
                &&& task == Some(unit)
                &&& final(self).ready_queue@ == old(self).ready_queue@.remove(at)
                &&& final(tasks)@ == old(tasks)@.update(
                    unit as int,
                    TaskControlBlock {
                        stride: advanced(
                            old(tasks)[unit as int].stride,
                            old(tasks)[unit as int].priority,
                        ),
                        ..old(tasks)[unit as int]
                    },
                )
            },
    {
        let len: usize = self.ready_queue.len();
        if len == 0 {
            return None;
        }
        let ghost strides = queue_strides(self.ready_queue@, tasks@);
        let mut best: usize = 0;
        let mut i: usize = 1;
        assert(strides.take(1).len() == 1);
        while i < len
            invariant
                1 <= i <= len,
                len == self.ready_queue.len(),
                *self == *old(self),
                *tasks == *old(tasks),
                queue_valid(self.ready_queue@, tasks@),
                strides == queue_strides(self.ready_queue@, tasks@),
                best == pick(strides.take(i as int)),
                0 <= best < i,
            decreases len - i,
        {
            proof {
                let next = strides.take(i + 1);
                assert(next.drop_last() =~= strides.take(i as int));
                assert(next.last() == strides[i as int]);
                assert(next[best as int] == strides[best as int]);
            }
            let candidate: u64 = tasks[self.ready_queue[i]].stride;
            let held: u64 = tasks[self.ready_queue[best]].stride;
            if comes_before(candidate, held) {
                best = i;
            }
            i = i + 1;
        }
        proof {
            assert(strides.take(len as int) =~= strides);
            lemma_pick_in_range(strides);
        }
        let unit: usize = self.ready_queue.remove(best);
        tasks[unit].update_stride();
        Some(unit)
    }
}

} // verus!
