//! The state of the kernel core: the table of units, the table of
//! processes, the ready queue and the processor, with the steps that move a
//! unit between running, ready, blocked and exited.
use crate::error::SyncError;
use crate::sync::Acquire;
use crate::task::control_block::{TaskControlBlock, TaskStatus};
use crate::task::manager::TaskManager;
use crate::task::process::{
    fresh_mutex, fresh_semaphore, lemma_condvar_wait_waits, lemma_down_waits, lemma_lock_waits,
    lemma_signal_waits, lemma_tables_keep_waits, lemma_unlock_waits, lemma_up_waits,
    ProcessControlBlock, ProcessView, WaitState,
};
use crate::task::processor::Processor;
use vstd::prelude::*;

verus! {

/// The whole state of the core.
pub struct Kernel {
    /// All units; a unit is named by its position here.
    pub tasks: Vec<TaskControlBlock>,
    /// All processes; a process id is a position here.
    pub processes: Vec<ProcessControlBlock>,
    /// The ready queue.
    pub manager: TaskManager,
    /// The processor.
    pub processor: Processor,
}

/// A unit's status goes with how its thread stands to the resources: a
/// queued thread is blocked, a polling thread is ready, and a running
/// thread waits for nothing.
pub open spec fn fits(status: TaskStatus, waits: WaitState) -> bool {
    &&& waits == WaitState::Queued ==> status == TaskStatus::Blocked
    &&& waits == WaitState::Polling ==> status == TaskStatus::Ready
    &&& status == TaskStatus::Running ==> waits == WaitState::Free
}

/// The table of units with the status of unit `u` replaced.
pub open spec fn with_status(tasks: Seq<TaskControlBlock>, u: int, status: TaskStatus) -> Seq<
    TaskControlBlock,
> {
    tasks.update(u, TaskControlBlock { status, ..tasks[u] })
}

impl Kernel {
    /// The ready queue.
    pub open spec fn ready(&self) -> Seq<usize> {
        self.manager.ready_queue@
    }

    /// The running unit.
    pub open spec fn running(&self) -> Option<usize> {
        self.processor.current
    }

    /// How unit `u` stands to the resources of its process.
    pub open spec fn waits(&self, u: int) -> WaitState {
        self.processes[self.tasks[u].pid as int]@.wait_state(self.tasks[u].tid)
    }

    /// Unit `u` is a thread of an existing process, listed there under its
    /// thread id; its status goes with what it waits for; and it has the
    /// status Running if and only if it is the processor's current unit.
    pub open spec fn unit_ok(&self, u: int) -> bool {
        let task = self.tasks[u];
        &&& task.wf()
        &&& task.pid < self.processes.len()
        &&& task.tid < self.processes[task.pid as int].threads.len()
        &&& self.processes[task.pid as int].threads[task.tid as int] == u
        &&& fits(task.status, self.waits(u))
        &&& (task.status == TaskStatus::Running <==> self.running() == Some(u as usize))
    }

    /// Process `p` is consistent, stands at its own id, lists existing
    /// units as its threads, each of which names it as its process, and
    /// lists existing processes as its children.
    pub open spec fn process_ok(&self, p: int) -> bool {
        let process = self.processes[p];
        &&& process.wf()
        &&& process.pid == p
        &&& forall|t: int|
            0 <= t < process.threads.len() ==> {
                let u = #[trigger] process.threads[t];
                &&& u < self.tasks.len()
                &&& self.tasks[u as int].pid == p
                &&& self.tasks[u as int].tid == t
            }
        &&& forall|i: int|
            0 <= i < process.children.len() ==> (#[trigger] process.children[i])
                < self.processes.len()
    }

    /// The ready queue holds the ready units and no others, each once.
    pub open spec fn queue_ok(&self) -> bool {
        &&& self.ready().no_duplicates()
        &&& forall|i: int|
            0 <= i < self.ready().len() ==> (#[trigger] self.ready()[i]) < self.tasks.len()
                && self.tasks[self.ready()[i] as int].status == TaskStatus::Ready
        &&& forall|u: int|
            0 <= u < self.tasks.len() && (#[trigger] self.tasks[u]).status == TaskStatus::Ready
                ==> self.ready().contains(u as usize)
    }

    /// The tables, the ready queue and the processor agree. In particular
    /// at most one unit is running: the processor's current one. Process
    /// ids are small enough to be returned by a syscall.
    pub open spec fn wf(&self) -> bool {
        &&& forall|u: int| 0 <= u < self.tasks.len() ==> #[trigger] self.unit_ok(u)
        &&& forall|p: int| 0 <= p < self.processes.len() ==> #[trigger] self.process_ok(p)
        &&& self.queue_ok()
        &&& self.running().is_some() ==> self.running().unwrap() < self.tasks.len()
        &&& self.processes.len() <= isize::MAX
    }

    /// `after` differs from `self` in no process but `pid`, which has
    /// become `view`.
    pub open spec fn process_became(&self, after: &Kernel, pid: int, view: ProcessView) -> bool {
        &&& after.processes.len() == self.processes.len()
        &&& after.processes[pid]@ == view
        &&& forall|q: int|
            0 <= q < self.processes.len() && q != pid ==> #[trigger] after.processes[q]
                == self.processes[q]
    }

    /// `after` is `self` with the running unit taken off the processor and
    /// given the status `status`; a ready unit joins the back of the ready
    /// queue.
    pub open spec fn current_left(&self, after: &Kernel, status: TaskStatus) -> bool {
        let cur = self.running().unwrap();
        &&& after.running().is_none()
        &&& after.tasks@ == with_status(self.tasks@, cur as int, status)
        &&& after.ready() == (if status == TaskStatus::Ready {
            self.ready().push(cur)
        } else {
            self.ready()
        })
    }

    /// Nothing of the scheduling state has changed between `self` and
    /// `after`.
    pub open spec fn same_schedule(&self, after: &Kernel) -> bool {
        &&& after.running() == self.running()
        &&& after.tasks@ == self.tasks@
        &&& after.ready() == self.ready()
    }

    /// A kernel without units or processes, with an idle processor.
    pub fn new() -> (kernel: Kernel)
        ensures
            kernel.wf(),
            kernel.tasks.len() == 0,
            kernel.processes.len() == 0,
            kernel.ready().len() == 0,
            kernel.running().is_none(),
    {
        Kernel {
            tasks: Vec::new(),
            processes: Vec::new(),
            manager: TaskManager::new(),
            processor: Processor::new(),
        }
    }

    /// The running unit with its process id and thread id.
    pub fn current_thread(&self) -> (found: Option<(usize, usize, usize)>)
        requires
            self.wf(),
        ensures
            found.is_some() == self.running().is_some(),
            found.is_some() ==> {
                let (cur, pid, tid) = found.unwrap();
                &&& self.running() == Some(cur)
                &&& cur < self.tasks.len()
                &&& pid == self.tasks[cur as int].pid
                &&& tid == self.tasks[cur as int].tid
                &&& pid < self.processes.len()
                &&& tid < self.processes[pid as int].threads.len()
                &&& self.tasks[cur as int].status == TaskStatus::Running
                &&& self.waits(cur as int) == WaitState::Free
            },
    {
        match self.processor.current() {
            Some(cur) => {
                assert(self.unit_ok(cur as int));
                Some((cur, self.tasks[cur].pid, self.tasks[cur].tid))
            },
            None => None,
        }
    }
}

/// The ready queue stays right when the units that became ready, and no
/// others, joined its back.
pub proof fn lemma_queue_pushes(before: &Kernel, after: &Kernel, pushed: Seq<usize>)
    requires
        before.queue_ok(),
        after.tasks.len() == before.tasks.len(),
        after.ready() == before.ready() + pushed,
        pushed.no_duplicates(),
        forall|k: int|
            0 <= k < pushed.len() ==> {
                &&& (#[trigger] pushed[k]) < before.tasks.len()
                &&& before.tasks[pushed[k] as int].status != TaskStatus::Ready
                &&& after.tasks[pushed[k] as int].status == TaskStatus::Ready
            },
        forall|u: int|
            0 <= u < before.tasks.len() && !pushed.contains(u as usize) ==> ((
            #[trigger] after.tasks[u]).status == TaskStatus::Ready <==> before.tasks[u].status
                == TaskStatus::Ready),
    ensures
        after.queue_ok(),
{
    let queue = after.ready();
    let old_len = before.ready().len() as int;
    assert forall|i: int| 0 <= i < queue.len() implies (#[trigger] queue[i]) < after.tasks.len()
        && after.tasks[queue[i] as int].status == TaskStatus::Ready by {
        if i < old_len {
            assert(queue[i] == before.ready()[i]);
            let u = queue[i];
            assert(before.tasks[u as int].status == TaskStatus::Ready);
            if pushed.contains(u) {
                let k = choose|k: int| 0 <= k < pushed.len() && pushed[k] == u;
                assert(before.tasks[pushed[k] as int].status != TaskStatus::Ready);
            }
            assert(after.tasks[u as int].status == TaskStatus::Ready);
        } else {
            assert(queue[i] == pushed[i - old_len]);
        }
    }
    assert forall|i: int, j: int|
        0 <= i < queue.len() && 0 <= j < queue.len() && i != j implies queue[i] != queue[j] by {
        if i < old_len {
            assert(queue[i] == before.ready()[i]);
            assert(before.tasks[queue[i] as int].status == TaskStatus::Ready);
        } else {
            assert(queue[i] == pushed[i - old_len]);
        }
        if j < old_len {
            assert(queue[j] == before.ready()[j]);
            assert(before.tasks[queue[j] as int].status == TaskStatus::Ready);
        } else {
            assert(queue[j] == pushed[j - old_len]);
        }
    }
    assert forall|u: int|
        0 <= u < after.tasks.len() && (#[trigger] after.tasks[u]).status
            == TaskStatus::Ready implies queue.contains(u as usize) by {
        if pushed.contains(u as usize) {
            let k = choose|k: int| 0 <= k < pushed.len() && pushed[k] == u as usize;
            assert(queue[old_len + k] == u as usize);
        } else {
            assert(before.tasks[u].status == TaskStatus::Ready);
            assert(before.ready().contains(u as usize));
            let i = choose|i: int| 0 <= i < before.ready().len() && before.ready()[i] == u as usize;
            assert(queue[i] == u as usize);
        }
    }
}

/// A state that keeps every unit in its process and every process's list
/// of threads, and in which statuses, wait states, ready queue and
/// processor agree, is well-formed.
pub proof fn lemma_rescheduled(before: &Kernel, after: &Kernel)
    requires
        before.wf(),
        after.processes.len() == before.processes.len(),
        after.tasks.len() == before.tasks.len(),
        forall|p: int|
            0 <= p < before.processes.len() ==> {
                &&& (#[trigger] after.processes[p]).wf()
                &&& after.processes[p].pid == before.processes[p].pid
                &&& after.processes[p].threads@ == before.processes[p].threads@
                &&& after.processes[p].children@ == before.processes[p].children@
            },
        forall|u: int|
            0 <= u < before.tasks.len() ==> {
                &&& (#[trigger] after.tasks[u]).wf()
                &&& after.tasks[u].pid == before.tasks[u].pid
                &&& after.tasks[u].tid == before.tasks[u].tid
                &&& fits(after.tasks[u].status, after.waits(u))
                &&& (after.tasks[u].status == TaskStatus::Running <==> after.running() == Some(
                    u as usize,
                ))
            },
        after.queue_ok(),
        after.running().is_some() ==> after.running().unwrap() < after.tasks.len(),
    ensures
        after.wf(),
{
    assert forall|u: int| 0 <= u < after.tasks.len() implies #[trigger] after.unit_ok(u) by {
        assert(before.unit_ok(u));
        let p = before.tasks[u].pid as int;
        assert(after.processes[p].threads@ == before.processes[p].threads@);
    }
    assert forall|p: int| 0 <= p < after.processes.len() implies #[trigger] after.process_ok(
        p,
    ) by {
        assert(before.process_ok(p));
        assert(after.processes[p].threads@ == before.processes[p].threads@);
        assert(after.processes[p].children@ == before.processes[p].children@);
        let process = after.processes[p];
        assert forall|t: int| 0 <= t < process.threads.len() implies {
            let u = #[trigger] process.threads[t];
            &&& u < after.tasks.len()
            &&& after.tasks[u as int].pid == p
            &&& after.tasks[u as int].tid == t
        } by {
            let u = before.processes[p].threads[t];
            assert(after.tasks[u as int].pid == before.tasks[u as int].pid);
        }
        assert forall|i: int| 0 <= i < process.children.len() implies (
        #[trigger] process.children[i]) < after.processes.len() by {
            assert(before.processes[p].children[i] < before.processes.len());
        }
    }
}

/// A state with the same tables, ready queue and current unit as a
/// well-formed one is well-formed.
pub proof fn lemma_unchanged(before: &Kernel, after: &Kernel)
    requires
        before.wf(),
        after.processes@ == before.processes@,
        before.same_schedule(after),
    ensures
        after.wf(),
{
    assert forall|p: int| 0 <= p < before.processes.len() implies {
        &&& (#[trigger] after.processes[p]).wf()
        &&& after.processes[p].pid == before.processes[p].pid
        &&& after.processes[p].threads@ == before.processes[p].threads@
        &&& after.processes[p].children@ == before.processes[p].children@
    } by {
        assert(before.process_ok(p));
        assert(after.processes@[p] == before.processes@[p]);
    }
    assert forall|u: int| 0 <= u < before.tasks.len() implies {
        &&& (#[trigger] after.tasks[u]).wf()
        &&& after.tasks[u].pid == before.tasks[u].pid
        &&& after.tasks[u].tid == before.tasks[u].tid
        &&& fits(after.tasks[u].status, after.waits(u))
        &&& (after.tasks[u].status == TaskStatus::Running <==> after.running() == Some(u as usize))
    } by {
        assert(before.unit_ok(u));
        assert(after.tasks@[u] == before.tasks@[u]);
    }
    lemma_rescheduled(before, after);
}

/// Two units of one process with the same thread id are the same unit.
pub proof fn lemma_unit_of_thread(kernel: &Kernel, u: int, v: int)
    requires
        kernel.wf(),
        0 <= u < kernel.tasks.len(),
        0 <= v < kernel.tasks.len(),
        kernel.tasks[u].pid == kernel.tasks[v].pid,
        kernel.tasks[u].tid == kernel.tasks[v].tid,
    ensures
        u == v,
{
    assert(kernel.unit_ok(u));
    assert(kernel.unit_ok(v));
}

impl Kernel {
    /// The running unit gives up the processor and joins the back of the
    /// ready queue. With an idle processor nothing happens.
    pub fn suspend_current_and_run_next(&mut self)
        requires
            old(self).wf(),
        ensures
            final(self).wf(),
            final(self).processes@ == old(self).processes@,
            old(self).running().is_some() ==> old(self).current_left(
                final(self),
                TaskStatus::Ready,
            ),
            old(self).running().is_none() ==> old(self).same_schedule(final(self)),
    {
        match self.processor.take_current() {
            Some(cur) => {
                assert(old(self).unit_ok(cur as int));
                self.tasks[cur].status = TaskStatus::Ready;
                self.manager.add(cur);
                proof {
                    self.lemma_left(old(self), cur, TaskStatus::Ready);
                }
            },
            None => {
                proof {
                    lemma_unchanged(old(self), self);
                }
            },
        }
    }

    /// The running unit gives up the processor and is blocked until it is
    /// woken. With an idle processor nothing happens.
    pub fn block_current_and_run_next(&mut self)
        requires
            old(self).wf(),
        ensures
            final(self).wf(),
            final(self).processes@ == old(self).processes@,
            old(self).running().is_some() ==> old(self).current_left(
                final(self),
                TaskStatus::Blocked,
            ),
            old(self).running().is_none() ==> old(self).same_schedule(final(self)),
    {
        match self.processor.take_current() {
            Some(cur) => {
                assert(old(self).unit_ok(cur as int));
                self.tasks[cur].status = TaskStatus::Blocked;
                proof {
                    self.lemma_left(old(self), cur, TaskStatus::Blocked);
                }
            },
            None => {
                proof {
                    lemma_unchanged(old(self), self);
                }
            },
        }
    }

    /// After the running unit `cur` left the processor with a status other
    /// than Running and nothing else changed, the state is well-formed.
    proof fn lemma_left(&self, before: &Kernel, cur: usize, status: TaskStatus)
        requires
            before.wf(),
            before.running() == Some(cur),
            status != TaskStatus::Running,
            self.processes@ == before.processes@,
            before.current_left(self, status),
        ensures
            self.wf(),
    {
        assert(before.unit_ok(cur as int));
        assert forall|u: int| 0 <= u < before.tasks.len() implies {
            &&& (#[trigger] self.tasks[u]).wf()
            &&& self.tasks[u].pid == before.tasks[u].pid
            &&& self.tasks[u].tid == before.tasks[u].tid
            &&& fits(self.tasks[u].status, self.waits(u))
            &&& (self.tasks[u].status == TaskStatus::Running <==> self.running() == Some(u as usize))
        } by {
            assert(before.unit_ok(u));
        }
        let pushed = if status == TaskStatus::Ready {
            seq![cur]
        } else {
            Seq::<usize>::empty()
        };
        assert(self.ready() =~= before.ready() + pushed);
        if status == TaskStatus::Ready {
            assert(pushed[0] == cur);
        }
        lemma_queue_pushes(before, self, pushed);
        assert forall|p: int| 0 <= p < before.processes.len() implies {
            &&& (#[trigger] self.processes[p]).wf()
            &&& self.processes[p].pid == before.processes[p].pid
            &&& self.processes[p].threads@ == before.processes[p].threads@
            &&& self.processes[p].children@ == before.processes[p].children@
        } by {
            assert(before.process_ok(p));
            assert(self.processes@[p] == before.processes@[p]);
        }
        lemma_rescheduled(before, self);
    }
}

impl Kernel {
    /// The unit of thread `tid` of process `pid`.
    pub open spec fn unit_of(&self, pid: int, tid: usize) -> usize {
        self.processes[pid].threads[tid as int]
    }

    /// One step on the resources of process `pid`, seen from the scheduler:
    /// the process has become `view`; if `parked` names a status, the
    /// running unit has left the processor with it; and if `woken` names a
    /// thread of the process, that thread's unit has become ready and has
    /// joined the back of the ready queue, behind the running unit if that
    /// joined too. Nothing else has changed.
    pub open spec fn sync_step(
        &self,
        after: &Kernel,
        pid: int,
        view: ProcessView,
        parked: Option<TaskStatus>,
        woken: Option<usize>,
    ) -> bool {
        let cur = self.running().unwrap();
        let tasks1 = if parked.is_some() {
            with_status(self.tasks@, cur as int, parked.unwrap())
        } else {
            self.tasks@
        };
        let ready1 = if parked == Some(TaskStatus::Ready) {
            self.ready().push(cur)
        } else {
            self.ready()
        };
        &&& self.process_became(after, pid, view)
        &&& after.running() == (if parked.is_some() {
            None
        } else {
            self.running()
        })
        &&& after.tasks@ == (match woken {
            Some(w) => with_status(tasks1, self.unit_of(pid, w) as int, TaskStatus::Ready),
            None => tasks1,
        })
        &&& after.ready() == (match woken {
            Some(w) => ready1.push(self.unit_of(pid, w)),
            None => ready1,
        })
    }
}

/// A step on the resources of a process leaves the kernel well-formed if
/// the running unit is parked exactly when its thread has come to wait, a
/// woken thread was queued and waits no longer, and no other thread stands
/// differently than before.
pub proof fn lemma_sync_step(
    before: &Kernel,
    after: &Kernel,
    pid: int,
    view: ProcessView,
    parked: Option<TaskStatus>,
    woken: Option<usize>,
)
    requires
        before.wf(),
        0 <= pid < before.processes.len(),
        before.sync_step(after, pid, view, parked, woken),
        view.wf(),
        view.pid == before.processes[pid].pid,
        view.threads == before.processes[pid].threads@,
        view.children == before.processes[pid].children@,
        parked.is_some() ==> {
            let cur = before.running().unwrap();
            &&& before.running().is_some()
            &&& before.tasks[cur as int].pid == pid
            &&& parked.unwrap() != TaskStatus::Running
            &&& fits(parked.unwrap(), view.wait_state(before.tasks[cur as int].tid))
        },
        woken.is_some() ==> {
            let w = woken.unwrap();
            &&& w < view.threads.len()
            &&& before.processes[pid]@.wait_state(w) == WaitState::Queued
            &&& view.wait_state(w) == WaitState::Free
        },
        forall|t: usize|
            woken != Some(t) && !(parked.is_some() && before.tasks[before.running().unwrap() as int].tid
                == t) ==> #[trigger] view.wait_state(t) == before.processes[pid]@.wait_state(t),
    ensures
        after.wf(),
{
    assert(before.process_ok(pid));
    let cur = before.running().unwrap();
    if parked.is_some() {
        assert(before.unit_ok(cur as int));
    }
    let uw = if woken.is_some() {
        before.unit_of(pid, woken.unwrap())
    } else {
        0
    };
    if woken.is_some() {
        assert(before.processes[pid].threads[woken.unwrap() as int] == uw);
        assert(before.unit_ok(uw as int));
        assert(before.tasks[uw as int].status == TaskStatus::Blocked);
    }
    assert forall|p: int| 0 <= p < before.processes.len() implies {
        &&& (#[trigger] after.processes[p]).wf()
        &&& after.processes[p].pid == before.processes[p].pid
        &&& after.processes[p].threads@ == before.processes[p].threads@
        &&& after.processes[p].children@ == before.processes[p].children@
    } by {
        assert(before.process_ok(p));
    }
    assert forall|u: int| 0 <= u < before.tasks.len() implies {
        &&& (#[trigger] after.tasks[u]).wf()
        &&& after.tasks[u].pid == before.tasks[u].pid
        &&& after.tasks[u].tid == before.tasks[u].tid
        &&& fits(after.tasks[u].status, after.waits(u))
        &&& (after.tasks[u].status == TaskStatus::Running <==> after.running() == Some(u as usize))
    } by {
        assert(before.unit_ok(u));
        let t = before.tasks[u].tid;
        if before.tasks[u].pid == pid {
            if woken.is_some() && u != uw {
                if t == woken.unwrap() {
                    lemma_unit_of_thread(before, u, uw as int);
                }
            }
            if parked.is_some() && u != cur {
                if t == before.tasks[cur as int].tid {
                    lemma_unit_of_thread(before, u, cur as int);
                }
            }
        } else {
            assert(after.processes[before.tasks[u].pid as int] == before.processes[before.tasks[u].pid as int]);
        }
    }
    let first = if parked == Some(TaskStatus::Ready) {
        seq![cur]
    } else {
        Seq::<usize>::empty()
    };
    let second = if woken.is_some() {
        seq![uw]
    } else {
        Seq::<usize>::empty()
    };
    let pushed = first + second;
    assert(after.ready() =~= before.ready() + pushed);
    if parked == Some(TaskStatus::Ready) {
        assert(pushed[0] == cur);
    }
    if woken.is_some() {
        assert(pushed[pushed.len() - 1] == uw);
    }
    lemma_queue_pushes(before, after, pushed);
    lemma_rescheduled(before, after);
}

/// What becomes of the running unit after a request for a resource: it is
/// blocked if it was queued, made ready if it has to poll, and runs on
/// otherwise.
pub open spec fn parking(outcome: Result<Acquire, SyncError>) -> Option<TaskStatus> {
    match outcome {
        Ok(Acquire::Blocked) => Some(TaskStatus::Blocked),
        Ok(Acquire::Spin) => Some(TaskStatus::Ready),
        _ => None,
    }
}

/// The thread that a release or a signal woke, if it woke one.
pub open spec fn woken_by(outcome: Result<Option<usize>, SyncError>) -> Option<usize> {
    match outcome {
        Ok(woken) => woken,
        Err(_) => None,
    }
}

impl Kernel {
    /// Nothing at all has changed between `self` and `after`.
    pub open spec fn unchanged(&self, after: &Kernel) -> bool {
        &&& after.processes@ == self.processes@
        &&& self.same_schedule(after)
    }

    /// The process of the running unit.
    pub open spec fn current_pid(&self) -> int {
        self.tasks[self.running().unwrap() as int].pid as int
    }

    /// The thread id of the running unit.
    pub open spec fn current_tid(&self) -> usize {
        self.tasks[self.running().unwrap() as int].tid
    }

    /// The process of the running unit, as plain values.
    pub open spec fn current_process(&self) -> ProcessView {
        self.processes[self.current_pid()]@
    }

    /// Parks the running unit `cur` as the outcome of its request asks.
    fn park(&mut self, cur: usize, outcome: Result<Acquire, SyncError>)
        requires
            old(self).running() == Some(cur),
            cur < old(self).tasks.len(),
        ensures
            final(self).processes@ == old(self).processes@,
            final(self).running() == (if parking(outcome).is_some() {
                None
            } else {
                old(self).running()
            }),
            final(self).tasks@ == (if parking(outcome).is_some() {
                with_status(old(self).tasks@, cur as int, parking(outcome).unwrap())
            } else {
                old(self).tasks@
            }),
            final(self).ready() == (if parking(outcome) == Some(TaskStatus::Ready) {
                old(self).ready().push(cur)
            } else {
                old(self).ready()
            }),
    {
        match outcome {
            Ok(Acquire::Blocked) => {
                self.processor.current = None;
                self.tasks[cur].status = TaskStatus::Blocked;
            },
            Ok(Acquire::Spin) => {
                self.processor.current = None;
                self.tasks[cur].status = TaskStatus::Ready;
                self.manager.add(cur);
            },
            _ => {},
        }
    }

    /// Makes the unit of thread `woken` of process `pid` ready.
    fn wake(&mut self, pid: usize, woken: Option<usize>)
        requires
            pid < old(self).processes.len(),
            woken.is_some() ==> woken.unwrap() < old(self).processes[pid as int].threads.len()
                && old(self).unit_of(pid as int, woken.unwrap()) < old(self).tasks.len(),
        ensures
            final(self).processes@ == old(self).processes@,
            final(self).running() == old(self).running(),
            final(self).tasks@ == (match woken {
                Some(w) => with_status(
                    old(self).tasks@,
                    old(self).unit_of(pid as int, w) as int,
                    TaskStatus::Ready,
                ),
                None => old(self).tasks@,
            }),
            final(self).ready() == (match woken {
                Some(w) => old(self).ready().push(old(self).unit_of(pid as int, w)),
                None => old(self).ready(),
            }),
    {
        match woken {
            Some(w) => {
                let unit: usize = self.processes[pid].threads[w];
                self.tasks[unit].status = TaskStatus::Ready;
                self.manager.add(unit);
            },
            None => {},
        }
    }

    /// What `mutex_lock` does: without a running unit it fails and changes
    /// nothing; otherwise the running thread's request goes to its process,
    /// and the unit is parked as the outcome asks.
    pub open spec fn mutex_lock_step(
        &self,
        after: &Kernel,
        mutex_id: usize,
        outcome: Result<Acquire, SyncError>,
    ) -> bool {
        if self.running().is_none() {
            outcome == Err::<Acquire, SyncError>(SyncError::InvalidHandle) && self.unchanged(after)
        } else {
            let view = self.current_process();
            &&& outcome == view.mutex_lock_outcome(self.current_tid(), mutex_id)
            &&& self.sync_step(
                after,
                self.current_pid(),
                view.mutex_locked(self.current_tid(), mutex_id),
                parking(outcome),
                None,
            )
        }
    }

    /// Locks mutex `mutex_id` of the running unit's process for the running
    /// thread. If the mutex is taken, the unit leaves the processor:
    /// blocked in the mutex's queue, or ready to poll again.
    pub fn mutex_lock(&mut self, mutex_id: usize) -> (outcome: Result<Acquire, SyncError>)
        requires
            old(self).wf(),
        ensures
            final(self).wf(),
            old(self).mutex_lock_step(final(self), mutex_id, outcome),
    {
        let (cur, pid, tid) = match self.current_thread() {
            Some(found) => found,
            None => {
                return Err(SyncError::InvalidHandle);
            },
        };
        proof {
            assert(old(self).process_ok(pid as int));
            lemma_lock_waits(old(self).processes[pid as int]@, tid, mutex_id);
        }
        let outcome = self.processes[pid].mutex_lock(tid, mutex_id);
        self.park(cur, outcome);
        proof {
            lemma_sync_step(
                old(self),
                self,
                pid as int,
                old(self).processes[pid as int]@.mutex_locked(tid, mutex_id),
                parking(outcome),
                None,
            );
        }
        outcome
    }

    /// What `semaphore_down` does, in the same way.
    pub open spec fn semaphore_down_step(
        &self,
        after: &Kernel,
        sem_id: usize,
        outcome: Result<Acquire, SyncError>,
    ) -> bool {
        if self.running().is_none() {
            outcome == Err::<Acquire, SyncError>(SyncError::InvalidHandle) && self.unchanged(after)
        } else {
            let view = self.current_process();
            &&& outcome == view.semaphore_down_outcome(self.current_tid(), sem_id)
            &&& self.sync_step(
                after,
                self.current_pid(),
                view.semaphore_downed(self.current_tid(), sem_id),
                parking(outcome),
                None,
            )
        }
    }

    /// Takes one unit of semaphore `sem_id` of the running unit's process
    /// for the running thread. If none is free, the unit leaves the
    /// processor, blocked in the semaphore's queue.
    pub fn semaphore_down(&mut self, sem_id: usize) -> (outcome: Result<Acquire, SyncError>)
        requires
            old(self).wf(),
        ensures
            final(self).wf(),
            old(self).semaphore_down_step(final(self), sem_id, outcome),
    {
        let (cur, pid, tid) = match self.current_thread() {
            Some(found) => found,
            None => {
                return Err(SyncError::InvalidHandle);
            },
        };
        proof {
            assert(old(self).process_ok(pid as int));
            lemma_down_waits(old(self).processes[pid as int]@, tid, sem_id);
        }
        let outcome = self.processes[pid].semaphore_down(tid, sem_id);
        self.park(cur, outcome);
        proof {
            lemma_sync_step(
                old(self),
                self,
                pid as int,
                old(self).processes[pid as int]@.semaphore_downed(tid, sem_id),
                parking(outcome),
                None,
            );
        }
        outcome
    }

    /// What `mutex_unlock` does: without a running unit it fails and
    /// changes nothing; otherwise the running thread's release goes to its
    /// process, and the thread that the mutex went to is made ready.
    pub open spec fn mutex_unlock_step(
        &self,
        after: &Kernel,
        mutex_id: usize,
        outcome: Result<Option<usize>, SyncError>,
    ) -> bool {
        if self.running().is_none() {
            outcome == Err::<Option<usize>, SyncError>(SyncError::InvalidHandle) && self.unchanged(
                after,
            )
        } else {
            let view = self.current_process();
            &&& outcome == view.mutexes.release_outcome(self.current_tid(), mutex_id)
            &&& self.sync_step(
                after,
                self.current_pid(),
                view.mutex_unlocked(self.current_tid(), mutex_id),
                None,
                woken_by(outcome),
            )
        }
    }

    /// Unlocks mutex `mutex_id` of the running unit's process for the
    /// running thread. The earliest waiter, if there is one, gets the mutex
    /// and becomes ready.
    pub fn mutex_unlock(&mut self, mutex_id: usize) -> (outcome: Result<Option<usize>, SyncError>)
        requires
            old(self).wf(),
        ensures
            final(self).wf(),
            old(self).mutex_unlock_step(final(self), mutex_id, outcome),
    {
        let (cur, pid, tid) = match self.current_thread() {
            Some(found) => found,
            None => {
                return Err(SyncError::InvalidHandle);
            },
        };
        proof {
            assert(old(self).process_ok(pid as int));
            lemma_unlock_waits(old(self).processes[pid as int]@, tid, mutex_id);
        }
        let outcome = self.processes[pid].mutex_unlock(tid, mutex_id);
        let woken = match outcome {
            Ok(woken) => woken,
            Err(_) => None,
        };
        self.wake(pid, woken);
        proof {
            lemma_sync_step(
                old(self),
                self,
                pid as int,
                old(self).processes[pid as int]@.mutex_unlocked(tid, mutex_id),
                None,
                woken,
            );
        }
        outcome
    }

    /// What `semaphore_up` does, in the same way.
    pub open spec fn semaphore_up_step(
        &self,
        after: &Kernel,
        sem_id: usize,
        outcome: Result<Option<usize>, SyncError>,
    ) -> bool {
        if self.running().is_none() {
            outcome == Err::<Option<usize>, SyncError>(SyncError::InvalidHandle) && self.unchanged(
                after,
            )
        } else {
            let view = self.current_process();
            &&& outcome == view.semaphores.release_outcome(self.current_tid(), sem_id)
            &&& self.sync_step(
                after,
                self.current_pid(),
                view.semaphore_upped(self.current_tid(), sem_id),
                None,
                woken_by(outcome),
            )
        }
    }

    /// Raises semaphore `sem_id` of the running unit's process for the
    /// running thread, which gives one unit back or, if it holds none, puts
    /// a further unit in. The earliest waiter, if there is one, gets the
    /// unit and becomes ready.
    pub fn semaphore_up(&mut self, sem_id: usize) -> (outcome: Result<Option<usize>, SyncError>)
        requires
            old(self).wf(),
        ensures
            final(self).wf(),
            old(self).semaphore_up_step(final(self), sem_id, outcome),
    {
        let (cur, pid, tid) = match self.current_thread() {
            Some(found) => found,
            None => {
                return Err(SyncError::InvalidHandle);
            },
        };
        proof {
            assert(old(self).process_ok(pid as int));
            lemma_up_waits(old(self).processes[pid as int]@, tid, sem_id);
        }
        let outcome = self.processes[pid].semaphore_up(tid, sem_id);
        let woken = match outcome {
            Ok(woken) => woken,
            Err(_) => None,
        };
        self.wake(pid, woken);
        proof {
            lemma_sync_step(
                old(self),
                self,
                pid as int,
                old(self).processes[pid as int]@.semaphore_upped(tid, sem_id),
                None,
                woken,
            );
        }
        outcome
    }

    /// What `condvar_signal` does: without a running unit it fails and
    /// changes nothing; otherwise the earliest waiter of the condition
    /// variable, if there is one, leaves the queue and is made ready.
    pub open spec fn condvar_signal_step(
        &self,
        after: &Kernel,
        condvar_id: usize,
        outcome: Result<Option<usize>, SyncError>,
    ) -> bool {
        if self.running().is_none() {
            outcome == Err::<Option<usize>, SyncError>(SyncError::InvalidHandle) && self.unchanged(
                after,
            )
        } else {
            let view = self.current_process();
            &&& outcome == view.condvars.signal_outcome(condvar_id)
            &&& self.sync_step(
                after,
                self.current_pid(),
                view.condvar_signalled(condvar_id),
                None,
                woken_by(outcome),
            )
        }
    }

    /// Signals condition variable `condvar_id` of the running unit's
    /// process: the earliest waiter becomes ready. Without waiters nothing
    /// changes.
    pub fn condvar_signal(&mut self, condvar_id: usize) -> (outcome: Result<
        Option<usize>,
        SyncError,
    >)
        requires
            old(self).wf(),
        ensures
            final(self).wf(),
            old(self).condvar_signal_step(final(self), condvar_id, outcome),
    {
        let (cur, pid, tid) = match self.current_thread() {
            Some(found) => found,
            None => {
                return Err(SyncError::InvalidHandle);
            },
        };
        proof {
            assert(old(self).process_ok(pid as int));
            lemma_signal_waits(old(self).processes[pid as int]@, condvar_id);
        }
        let outcome = self.processes[pid].condvar_signal(condvar_id);
        let woken = match outcome {
            Ok(woken) => woken,
            Err(_) => None,
        };
        self.wake(pid, woken);
        proof {
            lemma_sync_step(
                old(self),
                self,
                pid as int,
                old(self).processes[pid as int]@.condvar_signalled(condvar_id),
                None,
                woken,
            );
        }
        outcome
    }

    /// What `condvar_wait` does: without a running unit it fails and
    /// changes nothing; a refused wait changes nothing either; otherwise
    /// the running unit is blocked on the condition variable, its mutex is
    /// released, and the thread that the mutex went to is made ready.
    pub open spec fn condvar_wait_step(
        &self,
        after: &Kernel,
        condvar_id: usize,
        mutex_id: usize,
        outcome: Result<Option<usize>, SyncError>,
    ) -> bool {
        if self.running().is_none() {
            outcome == Err::<Option<usize>, SyncError>(SyncError::InvalidHandle) && self.unchanged(
                after,
            )
        } else {
            let view = self.current_process();
            &&& outcome == view.condvar_wait_outcome(self.current_tid(), condvar_id, mutex_id)
            &&& self.sync_step(
                after,
                self.current_pid(),
                view.condvar_waited(self.current_tid(), condvar_id, mutex_id),
                if outcome.is_ok() {
                    Some(TaskStatus::Blocked)
                } else {
                    None
                },
                woken_by(outcome),
            )
        }
    }

    /// Lets the running thread wait on condition variable `condvar_id`: in
    /// one step its mutex `mutex_id` is released and the unit is blocked in
    /// the condition variable's queue. The thread that the mutex went to
    /// becomes ready. The waiting thread does not hold the mutex when it is
    /// signalled: it locks it again by itself.
    pub fn condvar_wait(&mut self, condvar_id: usize, mutex_id: usize) -> (outcome: Result<
        Option<usize>,
        SyncError,
    >)
        requires
            old(self).wf(),
        ensures
            final(self).wf(),
            old(self).condvar_wait_step(final(self), condvar_id, mutex_id, outcome),
    {
        let (cur, pid, tid) = match self.current_thread() {
            Some(found) => found,
            None => {
                return Err(SyncError::InvalidHandle);
            },
        };
        proof {
            assert(old(self).process_ok(pid as int));
            lemma_condvar_wait_waits(old(self).processes[pid as int]@, tid, condvar_id, mutex_id);
        }
        let outcome = self.processes[pid].condvar_wait(tid, condvar_id, mutex_id);
        match outcome {
            Ok(woken) => {
                self.park(cur, Ok(Acquire::Blocked));
                self.wake(pid, woken);
            },
            Err(_) => {},
        }
        proof {
            lemma_sync_step(
                old(self),
                self,
                pid as int,
                old(self).processes[pid as int]@.condvar_waited(tid, condvar_id, mutex_id),
                if outcome.is_ok() {
                    Some(TaskStatus::Blocked)
                } else {
                    None
                },
                woken_by(outcome),
            );
        }
        outcome
    }
}

impl Kernel {
    /// What the creation of a resource does: without a running unit it
    /// fails and changes nothing; otherwise the running unit's process has
    /// become `created`, and `id` is returned.
    pub open spec fn create_step(
        &self,
        after: &Kernel,
        created: ProcessView,
        id: int,
        outcome: Result<usize, SyncError>,
    ) -> bool {
        if self.running().is_none() {
            outcome == Err::<usize, SyncError>(SyncError::InvalidHandle) && self.unchanged(after)
        } else {
            &&& outcome.is_ok()
            &&& outcome.unwrap() == id
            &&& self.sync_step(after, self.current_pid(), created, None, None)
        }
    }

    /// Creates a mutex in the running unit's process, queueing if
    /// `blocking` and polling if not, and returns its id: the lowest free
    /// slot of the process's mutex table.
    pub fn mutex_create(&mut self, blocking: bool) -> (outcome: Result<usize, SyncError>)
        requires
            old(self).wf(),
        ensures
            final(self).wf(),
            old(self).create_step(
                final(self),
                ProcessView {
                    mutexes: old(self).current_process().mutexes.created(fresh_mutex(blocking), 1),
                    ..old(self).current_process()
                },
                old(self).current_process().mutexes.next_id(),
                outcome,
            ),
    {
        let (cur, pid, tid) = match self.current_thread() {
            Some(found) => found,
            None => {
                return Err(SyncError::InvalidHandle);
            },
        };
        assert(self.process_ok(pid as int));
        let id = self.processes[pid].mutex_create(blocking);
        proof {
            let v = old(self).processes[pid as int]@;
            assert(old(self).process_ok(pid as int));
            lemma_tables_keep_waits(v, self.processes[pid as int]@);
            lemma_sync_step(old(self), self, pid as int, self.processes[pid as int]@, None, None);
        }
        Ok(id)
    }

    /// Creates a semaphore of `res_count` units in the running unit's
    /// process, and returns its id: the lowest free slot of the process's
    /// semaphore table.
    pub fn semaphore_create(&mut self, res_count: usize) -> (outcome: Result<usize, SyncError>)
        requires
            old(self).wf(),
        ensures
            final(self).wf(),
            old(self).create_step(
                final(self),
                ProcessView {
                    semaphores: old(self).current_process().semaphores.created(
                        fresh_semaphore(res_count),
                        res_count,
                    ),
                    ..old(self).current_process()
                },
                old(self).current_process().semaphores.next_id(),
                outcome,
            ),
    {
        let (cur, pid, tid) = match self.current_thread() {
            Some(found) => found,
            None => {
                return Err(SyncError::InvalidHandle);
            },
        };
        assert(self.process_ok(pid as int));
        let id = self.processes[pid].semaphore_create(res_count);
        proof {
            let v = old(self).processes[pid as int]@;
            assert(old(self).process_ok(pid as int));
            lemma_tables_keep_waits(v, self.processes[pid as int]@);
            lemma_sync_step(old(self), self, pid as int, self.processes[pid as int]@, None, None);
        }
        Ok(id)
    }

    /// Creates a condition variable in the running unit's process, and
    /// returns its id: the lowest free slot of the process's table of
    /// condition variables.
    pub fn condvar_create(&mut self) -> (outcome: Result<usize, SyncError>)
        requires
            old(self).wf(),
        ensures
            final(self).wf(),
            old(self).create_step(
                final(self),
                ProcessView {
                    condvars: old(self).current_process().condvars.created(),
                    ..old(self).current_process()
                },
                old(self).current_process().condvars.next_id(),
                outcome,
            ),
    {
        let (cur, pid, tid) = match self.current_thread() {
            Some(found) => found,
            None => {
                return Err(SyncError::InvalidHandle);
            },
        };
        assert(self.process_ok(pid as int));
        let id = self.processes[pid].condvar_create();
        proof {
            let v = old(self).processes[pid as int]@;
            assert(old(self).process_ok(pid as int));
            lemma_tables_keep_waits(v, self.processes[pid as int]@);
            lemma_sync_step(old(self), self, pid as int, self.processes[pid as int]@, None, None);
        }
        Ok(id)
    }

    /// What `enable_deadlock_detect` does: without a running unit, or with
    /// a value other than 0 and 1, it fails and changes nothing; otherwise
    /// the safety check of the running unit's process is on for 1 and off
    /// for 0.
    pub open spec fn detect_step(
        &self,
        after: &Kernel,
        enabled: usize,
        outcome: Result<(), SyncError>,
    ) -> bool {
        if self.running().is_none() {
            outcome == Err::<(), SyncError>(SyncError::InvalidHandle) && self.unchanged(after)
        } else if enabled > 1 {
            outcome == Err::<(), SyncError>(SyncError::InvalidArgument) && self.sync_step(
                after,
                self.current_pid(),
                self.current_process(),
                None,
                None,
            )
        } else {
            outcome.is_ok() && self.sync_step(
                after,
                self.current_pid(),
                ProcessView { detect: enabled == 1, ..self.current_process() },
                None,
                None,
            )
        }
    }

    /// Switches the safety check of the running unit's process on (1) or
    /// off (0).
    pub fn enable_deadlock_detect(&mut self, enabled: usize) -> (outcome: Result<(), SyncError>)
        requires
            old(self).wf(),
        ensures
            final(self).wf(),
            old(self).detect_step(final(self), enabled, outcome),
    {
        let (cur, pid, tid) = match self.current_thread() {
            Some(found) => found,
            None => {
                return Err(SyncError::InvalidHandle);
            },
        };
        let outcome = self.processes[pid].enable_deadlock_detect(enabled);
        proof {
            let v = old(self).processes[pid as int]@;
            assert(old(self).process_ok(pid as int));
            if enabled <= 1 {
                assert(self.processes[pid as int]@ == (ProcessView { detect: enabled == 1, ..v }));
                lemma_tables_keep_waits(v, self.processes[pid as int]@);
            }
            lemma_sync_step(old(self), self, pid as int, self.processes[pid as int]@, None, None);
        }
        outcome
    }

    /// What `exit_current_and_run_next` does: the running unit is a zombie
    /// with the exit code and has left the processor; if it was the main
    /// thread of its process, the process is a zombie with that exit code
    /// too. With an idle processor nothing happens.
    pub open spec fn exit_step(&self, after: &Kernel, exit_code: i32) -> bool {
        if self.running().is_none() {
            self.unchanged(after)
        } else {
            let cur = self.running().unwrap() as int;
            &&& after.running().is_none()
            &&& after.ready() == self.ready()
            &&& after.tasks@ == self.tasks@.update(
                cur,
                TaskControlBlock { status: TaskStatus::Zombie, exit_code, ..self.tasks[cur] },
            )
            &&& self.process_became(
                after,
                self.current_pid(),
                if self.current_tid() == 0 {
                    ProcessView { is_zombie: true, exit_code, ..self.current_process() }
                } else {
                    self.current_process()
                },
            )
        }
    }

    /// The running unit exits with `exit_code` and leaves the processor.
    pub fn exit_current_and_run_next(&mut self, exit_code: i32)
        requires
            old(self).wf(),
        ensures
            final(self).wf(),
            old(self).exit_step(final(self), exit_code),
    {
        let (cur, pid, tid) = match self.current_thread() {
            Some(found) => found,
            None => {
                return ;
            },
        };
        self.processor.current = None;
        self.tasks[cur].status = TaskStatus::Zombie;
        self.tasks[cur].exit_code = exit_code;
        if tid == 0 {
            self.processes[pid].is_zombie = true;
            self.processes[pid].exit_code = exit_code;
        }
        proof {
            let before = old(self);
            assert(before.unit_ok(cur as int));
            assert forall|p: int| 0 <= p < before.processes.len() implies {
                &&& (#[trigger] self.processes[p]).wf()
                &&& self.processes[p].pid == before.processes[p].pid
                &&& self.processes[p].threads@ == before.processes[p].threads@
                &&& self.processes[p].children@ == before.processes[p].children@
            } by {
                assert(before.process_ok(p));
            }
            assert forall|u: int| 0 <= u < before.tasks.len() implies {
                &&& (#[trigger] self.tasks[u]).wf()
                &&& self.tasks[u].pid == before.tasks[u].pid
                &&& self.tasks[u].tid == before.tasks[u].tid
                &&& fits(self.tasks[u].status, self.waits(u))
                &&& (self.tasks[u].status == TaskStatus::Running <==> self.running() == Some(
                    u as usize,
                ))
            } by {
                assert(before.unit_ok(u));
                let q = before.tasks[u].pid as int;
                assert(self.processes[q]@.wait_state(before.tasks[u].tid)
                    == before.processes[q]@.wait_state(before.tasks[u].tid));
            }
            assert(self.ready() =~= before.ready() + Seq::<usize>::empty());
            lemma_queue_pushes(before, self, Seq::<usize>::empty());
            lemma_rescheduled(before, self);
            assert(self.tasks@ =~= before.tasks@.update(
                cur as int,
                TaskControlBlock {
                    status: TaskStatus::Zombie,
                    exit_code,
                    ..before.tasks[cur as int]
                },
            ));
            assert(self.ready() == before.ready());
            assert(before.process_became(
                self,
                pid as int,
                if tid == 0 {
                    ProcessView { is_zombie: true, exit_code, ..before.processes[pid as int]@ }
                } else {
                    before.processes[pid as int]@
                },
            ));
        }
    }

    /// Unit `unit` sleeps: it is blocked and stands in no wait queue.
    pub open spec fn sleeps(&self, unit: usize) -> bool {
        &&& unit < self.tasks.len()
        &&& self.tasks[unit as int].status == TaskStatus::Blocked
        &&& self.waits(unit as int) == WaitState::Free
    }

    /// Wakes unit `unit` if it sleeps: it becomes ready and joins the back
    /// of the ready queue. A unit that does not sleep is left alone: one
    /// that waits in a queue is woken by a release or a signal only.
    /// Returns whether the unit was woken.
    pub fn wakeup_task(&mut self, unit: usize) -> (woken: bool)
        requires
            old(self).wf(),
        ensures
            final(self).wf(),
            woken == old(self).sleeps(unit),
            final(self).processes@ == old(self).processes@,
            final(self).running() == old(self).running(),
            final(self).tasks@ == (if woken {
                with_status(old(self).tasks@, unit as int, TaskStatus::Ready)
            } else {
                old(self).tasks@
            }),
            final(self).ready() == (if woken {
                old(self).ready().push(unit)
            } else {
                old(self).ready()
            }),
    {
        if unit >= self.tasks.len() {
            return false;
        }
        assert(self.unit_ok(unit as int));
        let pid: usize = self.tasks[unit].pid;
        let tid: usize = self.tasks[unit].tid;
        assert(self.process_ok(pid as int));
        if self.tasks[unit].status != TaskStatus::Blocked || self.processes[pid].is_parked(tid) {
            return false;
        }
        self.tasks[unit].status = TaskStatus::Ready;
        self.manager.add(unit);
        proof {
            let before = old(self);
            assert forall|p: int| 0 <= p < before.processes.len() implies {
                &&& (#[trigger] self.processes[p]).wf()
                &&& self.processes[p].pid == before.processes[p].pid
                &&& self.processes[p].threads@ == before.processes[p].threads@
                &&& self.processes[p].children@ == before.processes[p].children@
            } by {
                assert(before.process_ok(p));
            }
            assert forall|u: int| 0 <= u < before.tasks.len() implies {
                &&& (#[trigger] self.tasks[u]).wf()
                &&& self.tasks[u].pid == before.tasks[u].pid
                &&& self.tasks[u].tid == before.tasks[u].tid
                &&& fits(self.tasks[u].status, self.waits(u))
                &&& (self.tasks[u].status == TaskStatus::Running <==> self.running() == Some(
                    u as usize,
                ))
            } by {
                assert(before.unit_ok(u));
            }
            assert(self.ready() =~= before.ready() + seq![unit]);
            assert(seq![unit][0] == unit);
            lemma_queue_pushes(before, self, seq![unit]);
            lemma_rescheduled(before, self);
        }
        true
    }
}

} // verus!
