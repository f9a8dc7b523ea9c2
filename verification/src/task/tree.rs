//! Creation of processes and threads, and the wait for a child.
use crate::config::{DEFAULT_PRIORITY, MAX_SYSCALL_NUM};
use crate::task::control_block::{TaskControlBlock, TaskStatus};
use crate::task::kernel::Kernel;
use crate::task::process::{lemma_with_thread_waits, ProcessControlBlock, ProcessView};
use vstd::prelude::*;

verus! {

/// `task` is a unit that has never run: thread `tid` of process `pid`,
/// ready, with stride 0, the default priority and no syscall counted.
pub open spec fn is_fresh(task: TaskControlBlock, pid: usize, tid: usize) -> bool {
    &&& task.wf()
    &&& task.pid == pid
    &&& task.tid == tid
    &&& task.status == TaskStatus::Ready
    &&& task.stride == 0
    &&& task.priority == DEFAULT_PRIORITY
    &&& task.begin_time == 0
    &&& task.exit_code == 0
    &&& forall|i: int| 0 <= i < MAX_SYSCALL_NUM ==> task.syscall_times[i] == 0
}

/// Child `child` is one that a wait for `pid` accepts: any child for -1,
/// and else the child with that process id.
pub open spec fn wanted_child(child: usize, pid: isize) -> bool {
    pid == -1 || pid == child
}

impl Kernel {
    /// `after` is `self` with a new, empty process at the end of the
    /// process table: it has the address space `memory_token`, and the
    /// parent `parent`, whose list of children it has joined.
    pub open spec fn process_added(
        &self,
        after: &Kernel,
        parent: Option<usize>,
        memory_token: usize,
    ) -> bool {
        let pid = self.processes.len() as int;
        &&& self.same_schedule(after)
        &&& after.processes.len() == pid + 1
        &&& after.processes[pid]@ == ProcessView::empty(pid as usize, parent, memory_token)
        &&& forall|q: int|
            0 <= q < pid && parent != Some(q as usize) ==> #[trigger] after.processes[q]
                == self.processes[q]
        &&& parent.is_some() ==> after.processes[parent.unwrap() as int]@ == (ProcessView {
            children: self.processes[parent.unwrap() as int]@.children.push(pid as usize),
            ..self.processes[parent.unwrap() as int]@
        })
    }

    /// Appends an empty process to the process table and returns its id.
    /// A parent that does not exist is not recorded. Nothing is added when
    /// the table is full.
    pub fn new_process(&mut self, parent: Option<usize>, memory_token: usize) -> (pid: Option<
        usize,
    >)
        requires
            old(self).wf(),
        ensures
            final(self).wf(),
            pid.is_some() == (old(self).processes.len() < isize::MAX),
            pid.is_some() ==> pid == Some(old(self).processes.len()) && old(self).process_added(
                final(self),
                if parent.is_some() && parent.unwrap() < old(self).processes.len() {
                    parent
                } else {
                    None
                },
                memory_token,
            ),
            pid.is_none() ==> old(self).unchanged(final(self)),
    {
        let pid: usize = self.processes.len();
        if pid >= isize::MAX as usize {
            return None;
        }
        let parent = match parent {
            Some(p) => if p < pid {
                Some(p)
            } else {
                None
            },
            None => None,
        };
        let process = ProcessControlBlock::new(pid, parent, memory_token);
        self.processes.push(process);
        match parent {
            Some(p) => {
                assert(old(self).process_ok(p as int));
                self.processes[p].children.push(pid);
            },
            None => {},
        }
        proof {
            let before = old(self);
            assert forall|u: int| 0 <= u < self.tasks.len() implies #[trigger] self.unit_ok(u) by {
                assert(before.unit_ok(u));
                let q = before.tasks[u].pid as int;
                assert(self.processes[q]@.wait_state(before.tasks[u].tid)
                    == before.processes[q]@.wait_state(before.tasks[u].tid));
            }
            assert forall|q: int| 0 <= q < self.processes.len() implies #[trigger] self.process_ok(
                q,
            ) by {
                if q < pid {
                    assert(before.process_ok(q));
                    let process = self.processes[q];
                    assert forall|i: int| 0 <= i < process.children.len() implies (
                    #[trigger] process.children[i]) < self.processes.len() by {
                        if i < before.processes[q].children.len() {
                            assert(before.processes[q].children[i] == process.children[i]);
                        }
                    }
                }
            }
        }
        Some(pid)
    }

    /// `after` is `self` with a new thread in process `pid`: a fresh unit
    /// at the end of the table of units, ready and at the back of the ready
    /// queue, with a row of zeros in every ledger of the process.
    pub open spec fn thread_added(&self, after: &Kernel, pid: int) -> bool {
        let unit = self.tasks.len() as int;
        let tid = self.processes[pid].threads.len() as usize;
        &&& after.running() == self.running()
        &&& after.ready() == self.ready().push(unit as usize)
        &&& after.tasks.len() == unit + 1
        &&& after.tasks@.drop_last() == self.tasks@
        &&& is_fresh(after.tasks[unit], pid as usize, tid)
        &&& self.process_became(after, pid, self.processes[pid]@.with_thread(unit as usize))
    }

    /// Creates a thread in process `pid` and returns its unit. The thread
    /// is ready to run and holds and awaits nothing. Without such a process
    /// nothing happens.
    pub fn add_thread(&mut self, pid: usize) -> (unit: Option<usize>)
        requires
            old(self).wf(),
        ensures
            final(self).wf(),
            unit.is_some() == (pid < old(self).processes.len()),
            unit.is_some() ==> unit == Some(old(self).tasks.len()) && old(self).thread_added(
                final(self),
                pid as int,
            ),
            unit.is_none() ==> old(self).unchanged(final(self)),
    {
        if pid >= self.processes.len() {
            return None;
        }
        assert(self.process_ok(pid as int));
        let unit: usize = self.tasks.len();
        let tid = self.processes[pid].add_thread(unit);
        let task = TaskControlBlock::new(pid, tid);
        self.tasks.push(task);
        self.manager.add(unit);
        proof {
            let before = old(self);
            let view = before.processes[pid as int]@;
            lemma_with_thread_waits(view, unit);
            assert(self.tasks@.drop_last() =~= before.tasks@);
            assert forall|u: int| 0 <= u < self.tasks.len() implies #[trigger] self.unit_ok(u) by {
                if u < unit {
                    assert(before.unit_ok(u));
                    assert(self.tasks[u] == before.tasks[u]);
                    let q = before.tasks[u].pid as int;
                    if q != pid {
                        assert(self.processes[q] == before.processes[q]);
                    }
                }
            }
            assert forall|q: int| 0 <= q < self.processes.len() implies #[trigger] self.process_ok(
                q,
            ) by {
                assert(before.process_ok(q));
                let process = self.processes[q];
                if q != pid {
                    assert(process == before.processes[q]);
                }
                assert forall|t: int| 0 <= t < process.threads.len() implies {
                    let u = #[trigger] process.threads[t];
                    &&& u < self.tasks.len()
                    &&& self.tasks[u as int].pid == q
                    &&& self.tasks[u as int].tid == t
                } by {
                    if q == pid && t == tid {
                    } else {
                        let u = before.processes[q].threads[t];
                        assert(self.tasks[u as int] == before.tasks[u as int]);
                    }
                }
                assert forall|i: int| 0 <= i < process.children.len() implies (
                #[trigger] process.children[i]) < self.processes.len() by {
                    assert(before.processes[q].children[i] == process.children[i]);
                }
            }
            assert(self.queue_ok()) by {
                let queue = self.ready();
                let old_len = before.ready().len();
                assert forall|i: int| 0 <= i < queue.len() implies (#[trigger] queue[i])
                    < self.tasks.len() && self.tasks[queue[i] as int].status
                    == TaskStatus::Ready by {
                    if i < old_len {
                        assert(before.ready()[i] == queue[i]);
                        assert(self.tasks[queue[i] as int] == before.tasks[queue[i] as int]);
                    }
                }
                assert forall|i: int, j: int|
                    0 <= i < queue.len() && 0 <= j < queue.len() && i != j implies queue[i]
                    != queue[j] by {
                    if i < old_len {
                        assert(before.ready()[i] == queue[i]);
                    }
                    if j < old_len {
                        assert(before.ready()[j] == queue[j]);
                    }
                }
                assert forall|u: int|
                    0 <= u < self.tasks.len() && (#[trigger] self.tasks[u]).status
                        == TaskStatus::Ready implies queue.contains(u as usize) by {
                    if u < unit {
                        assert(self.tasks[u] == before.tasks[u]);
                        assert(before.ready().contains(u as usize));
                        let i = choose|i: int|
                            0 <= i < before.ready().len() && before.ready()[i] == u as usize;
                        assert(queue[i] == u as usize);
                    } else {
                        assert(queue[old_len as int] == unit);
                    }
                }
            }
        }
        Some(unit)
    }

    /// `after` is `self` with a new process of one thread: the process
    /// stands at the end of the process table with the address space
    /// `memory_token` and the parent `parent`, whose list of children it
    /// has joined; its thread is a fresh unit at the end of the table of
    /// units, ready and at the back of the ready queue.
    pub open spec fn spawned(
        &self,
        after: &Kernel,
        parent: Option<usize>,
        memory_token: usize,
    ) -> bool {
        let id = self.processes.len();
        let unit = self.tasks.len();
        let parent = if parent.is_some() && parent.unwrap() < id {
            parent
        } else {
            None
        };
        &&& after.processes.len() == id + 1
        &&& after.processes[id as int]@ == ProcessView::empty(id, parent, memory_token).with_thread(
            unit,
        )
        &&& after.tasks.len() == unit + 1
        &&& after.tasks@.drop_last() == self.tasks@
        &&& is_fresh(after.tasks[unit as int], id, 0)
        &&& after.ready() == self.ready().push(unit)
        &&& after.running() == self.running()
        &&& forall|q: int|
            0 <= q < id && parent != Some(q as usize) ==> #[trigger] after.processes[q]
                == self.processes[q]
        &&& parent.is_some() ==> after.processes[parent.unwrap() as int]@ == (ProcessView {
            children: self.processes[parent.unwrap() as int]@.children.push(id),
            ..self.processes[parent.unwrap() as int]@
        })
    }

    /// Creates a process with one thread, ready to run, and returns its id.
    /// Nothing is created when the process table is full.
    pub fn add_process(&mut self, parent: Option<usize>, memory_token: usize) -> (pid: Option<
        usize,
    >)
        requires
            old(self).wf(),
        ensures
            final(self).wf(),
            pid.is_some() == (old(self).processes.len() < isize::MAX),
            pid.is_some() ==> pid == Some(old(self).processes.len()) && old(self).spawned(
                final(self),
                parent,
                memory_token,
            ),
            pid.is_none() ==> old(self).unchanged(final(self)),
    {
        match self.new_process(parent, memory_token) {
            Some(pid) => {
                let unit = self.add_thread(pid);
                Some(pid)
            },
            None => None,
        }
    }

    /// What a wait of the running unit's process for child `pid` (-1: any
    /// child) comes to: -1 if no child is wanted; -2 if none of the wanted
    /// children has exited yet; and else the process id of the first
    /// wanted child that has exited.
    pub open spec fn waitpid_result(&self, pid: isize) -> int {
        let children = self.current_process().children;
        if forall|i: int| 0 <= i < children.len() ==> !wanted_child(#[trigger] children[i], pid) {
            -1
        } else if self.first_exited(pid) >= children.len() {
            -2
        } else {
            children[self.first_exited(pid)] as int
        }
    }

    /// Child `i` of the running unit's process is wanted and has exited.
    pub open spec fn exited_child(&self, i: int, pid: isize) -> bool {
        let children = self.current_process().children;
        wanted_child(children[i], pid) && self.processes[children[i] as int].is_zombie
    }

    /// The position, among the children of the running unit's process, of
    /// the first wanted child that has exited; the number of children if
    /// there is none.
    pub open spec fn first_exited(&self, pid: isize) -> int {
        let children = self.current_process().children;
        if exists|i: int| 0 <= i < children.len() && self.exited_child(i, pid) {
            choose|i: int|
                0 <= i < children.len() && self.exited_child(i, pid) && forall|j: int|
                    0 <= j < i ==> !self.exited_child(j, pid)
        } else {
            children.len() as int
        }
    }

    /// Waits for a child of the running unit's process without blocking.
    ///
    /// Returns -1 if no child is wanted, where `pid` names the wanted child
    /// and -1 stands for any; -2 if no wanted child has exited yet; and
    /// otherwise the process id of the first wanted child that has exited.
    /// That child leaves the list of children, and its exit code is stored
    /// in `exit_code`. Without a running unit the result is -1.
    pub fn waitpid(&mut self, pid: isize, exit_code: &mut i32) -> (found: isize)
        requires
            old(self).wf(),
        ensures
            final(self).wf(),
            old(self).running().is_none() ==> found == -1 && old(self).unchanged(final(self))
                && *final(exit_code) == *old(exit_code),
            old(self).running().is_some() ==> {
                let at = old(self).first_exited(pid);
                let view = old(self).current_process();
                &&& found == old(self).waitpid_result(pid)
                &&& old(self).same_schedule(final(self))
                &&& found < 0 ==> {
                    &&& final(self).processes@ == old(self).processes@
                    &&& *final(exit_code) == *old(exit_code)
                }
                &&& found >= 0 ==> {
                    &&& 0 <= at < view.children.len()
                    &&& *final(exit_code) == old(self).processes[found as int].exit_code
                    &&& old(self).process_became(
                        final(self),
                        old(self).current_pid(),
                        ProcessView { children: view.children.remove(at), ..view },
                    )
                }
            },
    {
        let (cur, me, tid) = match self.current_thread() {
            Some(found) => found,
            None => {
                return -1;
            },
        };
        assert(self.process_ok(me as int));
        let count: usize = self.processes[me].children.len();
        let ghost children = self.processes[me as int].children@;
        let mut wanted: bool = false;
        let mut i: usize = 0;
        while i < count
            invariant
                i <= count,
                *self == *old(self),
                *exit_code == *old(exit_code),
                self.wf(),
                me < self.processes.len(),
                me == self.current_pid(),
                self.running().is_some(),
                children == self.processes[me as int].children@,
                count == children.len(),
                wanted <==> exists|j: int| 0 <= j < i && wanted_child(#[trigger] children[j], pid),
                forall|j: int| 0 <= j < i ==> !self.exited_child(j, pid),
            decreases count - i,
        {
            let child: usize = self.processes[me].children[i];
            assert(self.process_ok(me as int));
            assert(children[i as int] < self.processes.len());
            if pid == -1 || (pid >= 0 && pid as usize == child) {
                assert(wanted_child(children[i as int], pid));
                wanted = true;
                if self.processes[child].is_zombie {
                    let code: i32 = self.processes[child].exit_code;
                    proof {
                        assert(self.exited_child(i as int, pid));
                        assert(self.first_exited(pid) == i);
                    }
                    self.processes[me].children.remove(i);
                    *exit_code = code;
                    proof {
                        self.lemma_child_reaped(old(self), me as int, i as int);
                    }
                    return child as isize;
                }
            }
            i = i + 1;
        }
        proof {
            assert(forall|j: int| 0 <= j < children.len() ==> !self.exited_child(j, pid));
            assert(children == self.current_process().children);
            assert(self.first_exited(pid) == children.len());
            if wanted {
                let j = choose|j: int| 0 <= j < count && wanted_child(#[trigger] children[j], pid);
                assert(wanted_child(self.current_process().children[j], pid));
                assert(self.waitpid_result(pid) == -2);
            } else {
                assert(self.waitpid_result(pid) == -1);
            }
        }
        if wanted {
            -2
        } else {
            -1
        }
    }

    /// After child `at` left the list of children of process `me` and
    /// nothing else changed, the state is well-formed.
    proof fn lemma_child_reaped(&self, before: &Kernel, me: int, at: int)
        requires
            before.wf(),
            0 <= me < before.processes.len(),
            0 <= at < before.processes[me].children.len(),
            before.same_schedule(self),
            before.process_became(
                self,
                me,
                ProcessView {
                    children: before.processes[me]@.children.remove(at),
                    ..before.processes[me]@
                },
            ),
        ensures
            self.wf(),
    {
        assert forall|u: int| 0 <= u < self.tasks.len() implies #[trigger] self.unit_ok(u) by {
            assert(before.unit_ok(u));
            assert(self.tasks@[u] == before.tasks@[u]);
            let q = before.tasks[u].pid as int;
            assert(self.processes[q]@.wait_state(before.tasks[u].tid)
                == before.processes[q]@.wait_state(before.tasks[u].tid));
        }
        assert forall|q: int| 0 <= q < self.processes.len() implies #[trigger] self.process_ok(
            q,
        ) by {
            assert(before.process_ok(q));
            let process = self.processes[q];
            assert(process@.threads == before.processes[q]@.threads);
            assert forall|t: int| 0 <= t < process.threads.len() implies {
                let u = #[trigger] process.threads[t];
                &&& u < self.tasks.len()
                &&& self.tasks[u as int].pid == q
                &&& self.tasks[u as int].tid == t
            } by {
                let u = before.processes[q].threads[t];
                assert(self.tasks@[u as int] == before.tasks@[u as int]);
            }
            assert forall|i: int| 0 <= i < process.children.len() implies (
            #[trigger] process.children[i]) < self.processes.len() by {
                if q == me {
                    let k = if i < at {
                        i
                    } else {
                        i + 1
                    };
                    assert(process@.children[i] == before.processes[q].children[k]);
                } else {
                    assert(process.children[i] == before.processes[q].children[i]);
                }
            }
        }
        assert(self.ready() =~= before.ready() + Seq::<usize>::empty());
        crate::task::kernel::lemma_queue_pushes(before, self, Seq::<usize>::empty());
    }
}

} // verus!
