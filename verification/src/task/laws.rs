//! What holds of the resources of every process whenever the kernel is at
//! rest between two operations.
use crate::ledger::class::{lemma_mutual_exclusion, lemma_units_conserved};
use crate::ledger::sums::column_sum;
use crate::task::control_block::TaskStatus;
use crate::task::kernel::Kernel;
use crate::task::manager::queue_strides;
use crate::task::process::WaitState;
use crate::task::stride::{distance, in_window, lemma_pick_is_minimum, pick};
use vstd::prelude::*;

verus! {

/// Conservation of units. In every process, for every mutex and every
/// semaphore, the free units and the units that all threads hold add up to
/// the units that the resource has: one for a mutex; for a semaphore the
/// count that it was created with and what threads that held none have put
/// in since.
pub proof fn lemma_matrix_invariant(kernel: &Kernel, pid: int, rid: usize)
    requires
        kernel.wf(),
        0 <= pid < kernel.processes.len(),
    ensures
        ({
            let mutexes = kernel.processes[pid]@.mutexes;
            rid < mutexes.resources() ==> {
                &&& mutexes.ledger.available[rid as int] + column_sum(
                    mutexes.ledger.held,
                    rid as int,
                ) == mutexes.ledger.total[rid as int]
                &&& mutexes.occupied(rid) ==> mutexes.ledger.total[rid as int] == 1
            }
        }),
        ({
            let semaphores = kernel.processes[pid]@.semaphores;
            rid < semaphores.resources() ==> semaphores.ledger.available[rid as int] + column_sum(
                semaphores.ledger.held,
                rid as int,
            ) == semaphores.ledger.total[rid as int]
        }),
{
    assert(kernel.process_ok(pid));
    let view = kernel.processes[pid]@;
    if rid < view.mutexes.resources() {
        lemma_units_conserved(view.mutexes, rid);
        if view.mutexes.occupied(rid) {
            assert(view.mutexes.slots[rid as int].is_some());
        }
    }
    if rid < view.semaphores.resources() {
        lemma_units_conserved(view.semaphores, rid);
    }
}

/// Mutual exclusion. In no process do two threads hold the same mutex: if
/// the ledger records threads `t1` and `t2` as holders of mutex `rid`,
/// they are one thread, and the mutex has no free unit.
pub proof fn lemma_one_holder_per_mutex(kernel: &Kernel, pid: int, rid: usize, t1: usize, t2: usize)
    requires
        kernel.wf(),
        0 <= pid < kernel.processes.len(),
        kernel.processes[pid]@.mutexes.occupied(rid),
        t1 < kernel.processes[pid]@.thread_count(),
        t2 < kernel.processes[pid]@.thread_count(),
        kernel.processes[pid]@.mutexes.ledger.held[t1 as int][rid as int] >= 1,
        kernel.processes[pid]@.mutexes.ledger.held[t2 as int][rid as int] >= 1,
    ensures
        t1 == t2,
        kernel.processes[pid]@.mutexes.ledger.held[t1 as int][rid as int] == 1,
        kernel.processes[pid]@.mutexes.ledger.available[rid as int] == 0,
{
    assert(kernel.process_ok(pid));
    let view = kernel.processes[pid]@;
    assert(view.mutexes.slots[rid as int].is_some());
    lemma_mutual_exclusion(view.mutexes, rid, t1, t2);
}

/// One unit runs at a time: two units with the status Running are one
/// unit, the processor's current one.
pub proof fn lemma_one_running_unit(kernel: &Kernel, u: int, v: int)
    requires
        kernel.wf(),
        0 <= u < kernel.tasks.len(),
        0 <= v < kernel.tasks.len(),
        kernel.tasks[u].status == TaskStatus::Running,
        kernel.tasks[v].status == TaskStatus::Running,
    ensures
        u == v,
        kernel.running() == Some(u as usize),
{
    assert(kernel.unit_ok(u));
    assert(kernel.unit_ok(v));
}

/// A unit whose thread stands in a wait queue is blocked, and neither runs
/// nor stands in the ready queue.
pub proof fn lemma_queued_thread_is_blocked(kernel: &Kernel, u: int)
    requires
        kernel.wf(),
        0 <= u < kernel.tasks.len(),
        kernel.waits(u) == WaitState::Queued,
    ensures
        kernel.tasks[u].status == TaskStatus::Blocked,
        kernel.running() != Some(u as usize),
        !kernel.ready().contains(u as usize),
{
    assert(kernel.unit_ok(u));
    if kernel.ready().contains(u as usize) {
        let i = choose|i: int| 0 <= i < kernel.ready().len() && kernel.ready()[i] == u as usize;
        assert(kernel.tasks[kernel.ready()[i] as int].status == TaskStatus::Ready);
    }
}

/// The scheduler's choice. The unit that the next dispatch step takes out
/// of the ready queue is ready, and where the strides of the queued units
/// lie in one window of half the counter's range, no ready unit has a
/// stride nearer to the window's base; of the ready units with that stride
/// it is the one that has been in the queue longest.
pub proof fn lemma_dispatch_takes_least_stride(kernel: &Kernel, base: u64)
    requires
        kernel.wf(),
        kernel.ready().len() > 0,
        in_window(queue_strides(kernel.ready(), kernel.tasks@), base),
    ensures
        ({
            let at = pick(queue_strides(kernel.ready(), kernel.tasks@));
            let unit = kernel.ready()[at] as int;
            &&& 0 <= at < kernel.ready().len()
            &&& 0 <= unit < kernel.tasks.len()
            &&& kernel.tasks[unit].status == TaskStatus::Ready
            &&& forall|u: int|
                0 <= u < kernel.tasks.len() && (#[trigger] kernel.tasks[u]).status
                    == TaskStatus::Ready ==> distance(base, kernel.tasks[unit].stride) <= distance(
                    base,
                    kernel.tasks[u].stride,
                )
            &&& forall|i: int|
                0 <= i < at ==> distance(base, kernel.tasks[unit].stride) < distance(
                    base,
                    kernel.tasks[#[trigger] kernel.ready()[i] as int].stride,
                )
        }),
{
    let strides = queue_strides(kernel.ready(), kernel.tasks@);
    lemma_pick_is_minimum(strides, base);
    let at = pick(strides);
    let unit = kernel.ready()[at] as int;
    assert(strides[at] == kernel.tasks[unit].stride);
    assert forall|u: int|
        0 <= u < kernel.tasks.len() && (#[trigger] kernel.tasks[u]).status
            == TaskStatus::Ready implies distance(base, kernel.tasks[unit].stride) <= distance(
        base,
        kernel.tasks[u].stride,
    ) by {
        assert(kernel.ready().contains(u as usize));
        let i = choose|i: int| 0 <= i < kernel.ready().len() && kernel.ready()[i] == u as usize;
        assert(strides[i] == kernel.tasks[u].stride);
    }
    assert forall|i: int| 0 <= i < at implies distance(base, kernel.tasks[unit].stride) < distance(
        base,
        kernel.tasks[#[trigger] kernel.ready()[i] as int].stride,
    ) by {
        assert(strides[i] == kernel.tasks[kernel.ready()[i] as int].stride);
    }
}

} // verus!
