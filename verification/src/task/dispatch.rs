//! The dispatch step: the choice of the next unit and its hand-over to the
//! processor.
use crate::config::MIN_PRIORITY;
use crate::error::SyncError;
use crate::sync::Acquire;
use crate::task::control_block::{TaskControlBlock, TaskStatus};
use crate::task::kernel::{fits, lemma_rescheduled, lemma_unit_of_thread, Kernel};
use crate::task::manager::queue_strides;
use crate::task::process::{lemma_poll_waits, WaitState};
use crate::task::stride::{advanced, pick};
use vstd::prelude::*;

verus! {

/// The time of a dispatch in milliseconds, from the clock's microseconds:
/// the low 16 bits of the seconds, times 1000, plus the milliseconds of the
/// running second.
pub open spec fn dispatch_time_ms(us: usize) -> usize {
    ((((us / 1_000_000) as u64) & 0xffff) * 1_000 + (us % 1_000_000) / 1_000) as usize
}

/// The time of a dispatch in milliseconds, from the clock's microseconds.
pub fn dispatch_time(us: usize) -> (ms: usize)
    ensures
        ms == dispatch_time_ms(us),
        ms <= 65_535_999,
{
    let seconds: u64 = (us / 1_000_000) as u64;
    let low: u64 = seconds & 0xffff;
    assert(low <= 0xffff) by (bit_vector)
        requires
            low == seconds & 0xffff,
    ;
    let millis: usize = (us % 1_000_000) / 1_000;
    (low * 1_000) as usize + millis
}

/// The ready queue stays right when the unit at position `at` left it to
/// run, or left it and joined its back again.
proof fn lemma_queue_fetched(before: &Kernel, after: &Kernel, at: int, unit: usize, taken: bool)
    requires
        before.queue_ok(),
        0 <= at < before.ready().len(),
        unit == before.ready()[at],
        after.tasks.len() == before.tasks.len(),
        forall|u: int|
            0 <= u < before.tasks.len() && u != unit ==> #[trigger] after.tasks[u] == before.tasks[u],
        after.tasks[unit as int].status == (if taken {
            TaskStatus::Running
        } else {
            TaskStatus::Ready
        }),
        after.ready() == (if taken {
            before.ready().remove(at)
        } else {
            before.ready().remove(at).push(unit)
        }),
    ensures
        after.queue_ok(),
{
    let queue = after.ready();
    let fetched = before.ready().remove(at);
    assert forall|i: int| 0 <= i < fetched.len() implies (#[trigger] fetched[i]) != unit
        && fetched[i] < before.tasks.len() && before.tasks[fetched[i] as int].status
        == TaskStatus::Ready by {
        let k = if i < at {
            i
        } else {
            i + 1
        };
        assert(fetched[i] == before.ready()[k]);
    }
    assert forall|i: int, j: int|
        0 <= i < fetched.len() && 0 <= j < fetched.len() && i != j implies fetched[i]
        != fetched[j] by {
        let ki = if i < at {
            i
        } else {
            i + 1
        };
        let kj = if j < at {
            j
        } else {
            j + 1
        };
        assert(fetched[i] == before.ready()[ki]);
        assert(fetched[j] == before.ready()[kj]);
    }
    assert forall|i: int| 0 <= i < queue.len() implies (#[trigger] queue[i]) < after.tasks.len()
        && after.tasks[queue[i] as int].status == TaskStatus::Ready by {
        if i < fetched.len() {
            assert(queue[i] == fetched[i]);
            assert(after.tasks[fetched[i] as int] == before.tasks[fetched[i] as int]);
        }
    }
    assert forall|i: int, j: int|
        0 <= i < queue.len() && 0 <= j < queue.len() && i != j implies queue[i] != queue[j] by {
        if i < fetched.len() {
            assert(queue[i] == fetched[i]);
        }
        if j < fetched.len() {
            assert(queue[j] == fetched[j]);
        }
    }
    assert forall|u: int|
        0 <= u < after.tasks.len() && (#[trigger] after.tasks[u]).status
            == TaskStatus::Ready implies queue.contains(u as usize) by {
        if u == unit {
            assert(queue[fetched.len() as int] == unit);
        } else {
            assert(after.tasks[u] == before.tasks[u]);
            assert(before.ready().contains(u as usize));
            let i = choose|i: int|
                0 <= i < before.ready().len() && before.ready()[i] == u as usize;
            let k = if i < at {
                i
            } else {
                i - 1
            };
            assert(fetched[k] == before.ready()[i]);
            assert(queue[k] == u as usize);
        }
    }
}

/// After the unit at position `at` of the ready queue was fetched and
/// then dispatched, or queued again after a poll that found its mutex
/// taken, the state is well-formed.
proof fn lemma_dispatch_wf(before: &Kernel, after: &Kernel, at: int, unit: usize, taken: bool)
    requires
        before.wf(),
        before.running().is_none(),
        0 <= at < before.ready().len(),
        unit == before.ready()[at],
        after.tasks.len() == before.tasks.len(),
        forall|u: int|
            0 <= u < before.tasks.len() && u != unit ==> #[trigger] after.tasks[u] == before.tasks[u],
        after.tasks[unit as int].wf(),
        after.tasks[unit as int].pid == before.tasks[unit as int].pid,
        after.tasks[unit as int].tid == before.tasks[unit as int].tid,
        after.tasks[unit as int].status == (if taken {
            TaskStatus::Running
        } else {
            TaskStatus::Ready
        }),
        before.process_became(
            after,
            before.tasks[unit as int].pid as int,
            before.processes[before.tasks[unit as int].pid as int]@.mutex_polled(
                before.tasks[unit as int].tid,
            ),
        ),
        after.processes[before.tasks[unit as int].pid as int].wf(),
        taken ==> before.processes[before.tasks[unit as int].pid as int]@.mutex_polled(
            before.tasks[unit as int].tid,
        ).wait_state(before.tasks[unit as int].tid) == WaitState::Free,
        after.running() == (if taken {
            Some(unit)
        } else {
            None
        }),
        after.ready() == (if taken {
            before.ready().remove(at)
        } else {
            before.ready().remove(at).push(unit)
        }),
    ensures
        after.wf(),
{
    assert(before.unit_ok(unit as int));
    let pid = before.tasks[unit as int].pid;
    let tid = before.tasks[unit as int].tid;
    assert(before.process_ok(pid as int));
    lemma_poll_waits(before.processes[pid as int]@, tid);
    assert forall|p: int| 0 <= p < before.processes.len() implies {
        &&& (#[trigger] after.processes[p]).wf()
        &&& after.processes[p].pid == before.processes[p].pid
        &&& after.processes[p].threads@ == before.processes[p].threads@
        &&& after.processes[p].children@ == before.processes[p].children@
    } by {
        assert(before.process_ok(p));
    }
    assert forall|u: int| 0 <= u < before.tasks.len() implies {
        &&& (#[trigger] after.tasks[u]).wf()
        &&& after.tasks[u].pid == before.tasks[u].pid
        &&& after.tasks[u].tid == before.tasks[u].tid
        &&& fits(after.tasks[u].status, after.waits(u))
        &&& (after.tasks[u].status == TaskStatus::Running <==> after.running() == Some(u as usize))
    } by {
        assert(before.unit_ok(u));
        if u != unit {
            assert(after.tasks[u] == before.tasks[u]);
            if before.tasks[u].pid == pid {
                if before.tasks[u].tid == tid {
                    lemma_unit_of_thread(before, u, unit as int);
                }
            } else {
                assert(after.processes[before.tasks[u].pid as int]
                    == before.processes[before.tasks[u].pid as int]);
            }
        }
    }
    lemma_queue_fetched(before, after, at, unit, taken);
    lemma_rescheduled(before, after);
}

impl Kernel {
    /// What one dispatch step does.
    ///
    /// While a unit runs, or with an empty ready queue, nothing happens.
    /// Otherwise the unit that is due first leaves the ready queue with its
    /// stride advanced by its pass. A unit that polls a mutex polls once:
    /// if the mutex is still taken, the unit goes to the back of the ready
    /// queue again and nothing is dispatched. In every other case the unit
    /// is dispatched: it is running, the processor's current unit, and has
    /// its first dispatch time set if it had none.
    pub open spec fn dispatch_step(
        &self,
        after: &Kernel,
        now_us: usize,
        dispatched: Option<usize>,
    ) -> bool {
        if self.running().is_some() || self.ready().len() == 0 {
            dispatched.is_none() && self.unchanged(after)
        } else {
            let at = pick(queue_strides(self.ready(), self.tasks@));
            let unit = self.ready()[at];
            let task = self.tasks[unit as int];
            let view = self.processes[task.pid as int]@;
            let fetched = TaskControlBlock { stride: advanced(task.stride, task.priority), ..task };
            &&& self.process_became(after, task.pid as int, view.mutex_polled(task.tid))
            &&& if view.wait_state(task.tid) == WaitState::Polling && view.mutexes.poll_outcome(
                task.tid,
            ) != Ok::<Acquire, SyncError>(Acquire::Granted) {
                &&& dispatched.is_none()
                &&& after.running().is_none()
                &&& after.tasks@ == self.tasks@.update(unit as int, fetched)
                &&& after.ready() == self.ready().remove(at).push(unit)
            } else {
                &&& dispatched == Some(unit)
                &&& after.running() == Some(unit)
                &&& after.tasks@ == self.tasks@.update(
                    unit as int,
                    TaskControlBlock {
                        status: TaskStatus::Running,
                        begin_time: if task.begin_time == 0 {
                            dispatch_time_ms(now_us)
                        } else {
                            task.begin_time
                        },
                        ..fetched
                    },
                )
                &&& after.ready() == self.ready().remove(at)
            }
        }
    }

    /// One step of the dispatch loop at clock time `now_us`: hands the
    /// processor to the ready unit that is due first, and returns that unit
    /// for the caller to switch to. Returns nothing when no unit was
    /// dispatched.
    pub fn dispatch(&mut self, now_us: usize) -> (dispatched: Option<usize>)
        requires
            old(self).wf(),
        ensures
            final(self).wf(),
            old(self).dispatch_step(final(self), now_us, dispatched),
    {
        if self.processor.current.is_some() {
            return None;
        }
        proof {
            assert forall|i: int| 0 <= i < self.ready().len() implies (#[trigger] self.ready()[i])
                < self.tasks.len() && self.tasks[self.ready()[i] as int].priority >= MIN_PRIORITY by {
                assert(self.unit_ok(self.ready()[i] as int));
            }
        }
        let unit: usize = match self.manager.fetch(&mut self.tasks) {
            Some(unit) => unit,
            None => {
                proof {
                    crate::task::kernel::lemma_unchanged(old(self), self);
                }
                return None;
            },
        };
        let ghost at = pick(queue_strides(old(self).ready(), old(self).tasks@));
        proof {
            assert(old(self).ready()[at] == unit);
            assert(old(self).unit_ok(unit as int));
            assert(old(self).tasks[unit as int].status == TaskStatus::Ready);
        }
        let pid: usize = self.tasks[unit].pid;
        let tid: usize = self.tasks[unit].tid;
        proof {
            assert(old(self).process_ok(pid as int));
            lemma_poll_waits(old(self).processes[pid as int]@, tid);
        }
        let mut taken: bool = true;
        if self.processes[pid].is_spinning(tid) {
            let polled = self.processes[pid].mutex_poll(tid);
            taken = match polled {
                Ok(Acquire::Granted) => true,
                _ => false,
            };
        }
        if taken {
            self.tasks[unit].status = TaskStatus::Running;
            if self.tasks[unit].begin_time == 0 {
                self.tasks[unit].begin_time = dispatch_time(now_us);
            }
            self.processor.current = Some(unit);
        } else {
            self.manager.add(unit);
        }
        proof {
            let before = old(self);
            lemma_dispatch_wf(before, self, at, unit, taken);
            let task = before.tasks[unit as int];
            let view = before.processes[pid as int]@;
            let fetched = TaskControlBlock { stride: advanced(task.stride, task.priority), ..task };
            assert(before.process_became(self, pid as int, view.mutex_polled(tid)));
            assert((view.wait_state(tid) == WaitState::Polling) == view.spinning(tid));
            if taken {
                assert(self.tasks@ =~= before.tasks@.update(
                    unit as int,
                    TaskControlBlock {
                        status: TaskStatus::Running,
                        begin_time: if task.begin_time == 0 {
                            dispatch_time_ms(now_us)
                        } else {
                            task.begin_time
                        },
                        ..fetched
                    },
                ));
                assert(self.ready() == before.ready().remove(at));
            } else {
                assert(self.tasks@ =~= before.tasks@.update(unit as int, fetched));
                assert(self.ready() == before.ready().remove(at).push(unit));
            }
        }
        if taken {
            Some(unit)
        } else {
            None
        }
    }
}

/// One step of the dispatch loop: see `Kernel::dispatch`. The caller runs
/// the loop and switches to the unit that a step returns.
pub fn run_tasks(kernel: &mut Kernel, now_us: usize) -> (dispatched: Option<usize>)
    requires
        old(kernel).wf(),
    ensures
        final(kernel).wf(),
        old(kernel).dispatch_step(final(kernel), now_us, dispatched),
{
    kernel.dispatch(now_us)
}

/// The running unit.
pub fn current_task(kernel: &Kernel) -> (unit: Option<usize>)
    ensures
        unit == kernel.running(),
{
    kernel.processor.current()
}

} // verus!
