//! The record of one process: its place in the process tree, its threads,
//! and its mutexes, semaphores and condition variables with their ledgers.
use crate::error::SyncError;
use crate::fs::inode::FileDescriptor;
use crate::ledger::class::{
    lemma_acquired_wf, lemma_created_wf, lemma_polled_wf, lemma_released_wf, lemma_removed_wf,
    listed,
    ClassView, ResourceClass,
};
use crate::sync::condvars::{CondvarTable, CondvarsView};
use crate::sync::primitive::{Kind, PrimitiveView};
use crate::sync::Acquire;
use crate::table::occupancy;
use vstd::prelude::*;

verus! {

/// One process.
pub struct ProcessControlBlock {
    /// The process id: the position in the kernel's table of processes.
    pub pid: usize,
    /// The process that created this one.
    pub parent: Option<usize>,
    /// The processes that this one created and has not waited for yet.
    pub children: Vec<usize>,
    /// The process's threads by thread id: each entry is the thread's
    /// position in the kernel's table of units.
    pub threads: Vec<usize>,
    /// The handle of the address space, of which the core knows nothing.
    pub memory_token: usize,
    /// Whether the process has exited.
    pub is_zombie: bool,
    /// The exit code, valid once the process has exited.
    pub exit_code: i32,
    /// Whether lock and down requests are checked for safety.
    pub deadlock_detect: bool,
    /// The mutexes with their ledger.
    pub mutexes: ResourceClass,
    /// The semaphores with their ledger.
    pub semaphores: ResourceClass,
    /// The condition variables.
    pub condvars: CondvarTable,
    /// The open files by file descriptor; a closed one leaves its slot
    /// empty.
    pub fd_table: Vec<Option<FileDescriptor>>,
}

/// A process as plain values.
pub struct ProcessView {
    /// The process id.
    pub pid: usize,
    /// The process that created this one.
    pub parent: Option<usize>,
    /// The processes that this one created and has not waited for yet.
    pub children: Seq<usize>,
    /// The process's threads by thread id.
    pub threads: Seq<usize>,
    /// The handle of the address space.
    pub memory_token: usize,
    /// Whether the process has exited.
    pub is_zombie: bool,
    /// The exit code, valid once the process has exited.
    pub exit_code: i32,
    /// Whether lock and down requests are checked for safety.
    pub detect: bool,
    /// The mutexes with their ledger.
    pub mutexes: ClassView,
    /// The semaphores with their ledger.
    pub semaphores: ClassView,
    /// The condition variables.
    pub condvars: CondvarsView,
    /// The open files by file descriptor.
    pub files: Seq<Option<FileDescriptor>>,
}

impl View for ProcessControlBlock {
    type V = ProcessView;

    open spec fn view(&self) -> ProcessView {
        ProcessView {
            pid: self.pid,
            parent: self.parent,
            children: self.children@,
            threads: self.threads@,
            memory_token: self.memory_token,
            is_zombie: self.is_zombie,
            exit_code: self.exit_code,
            detect: self.deadlock_detect,
            mutexes: self.mutexes@,
            semaphores: self.semaphores@,
            condvars: self.condvars@,
            files: self.fd_table@,
        }
    }
}

/// The open files of a new process: standard input, standard output, and
/// standard output once more for errors.
pub open spec fn standard_files() -> Seq<Option<FileDescriptor>> {
    seq![
        Some(FileDescriptor::Stdin),
        Some(FileDescriptor::Stdout),
        Some(FileDescriptor::Stdout),
    ]
}

/// A mutex of the kind that `blocking` asks for, free and without waiters.
pub open spec fn fresh_mutex(blocking: bool) -> PrimitiveView {
    PrimitiveView {
        kind: if blocking {
            Kind::BlockingMutex
        } else {
            Kind::SpinMutex
        },
        free: 1,
        waiters: Seq::empty(),
    }
}

/// A semaphore of `res_count` free units without waiters.
pub open spec fn fresh_semaphore(res_count: usize) -> PrimitiveView {
    PrimitiveView { kind: Kind::Semaphore, free: res_count as nat, waiters: Seq::empty() }
}

impl ProcessView {
    /// A process without threads, children or resources, with the safety
    /// check off.
    pub open spec fn empty(pid: usize, parent: Option<usize>, memory_token: usize) -> ProcessView {
        ProcessView {
            pid,
            parent,
            children: Seq::empty(),
            threads: Seq::empty(),
            memory_token,
            is_zombie: false,
            exit_code: 0,
            detect: false,
            mutexes: ClassView::empty(),
            semaphores: ClassView::empty(),
            condvars: CondvarsView::empty(),
            files: standard_files(),
        }
    }

    /// Number of threads.
    pub open spec fn thread_count(self) -> nat {
        self.threads.len()
    }

    /// Thread `tid` waits in the mutex class: in a queue, or polling.
    pub open spec fn waits_on_mutex(self, tid: usize) -> bool {
        tid < self.thread_count() && self.mutexes.waiting[tid as int].is_some()
    }

    /// Thread `tid` waits in the queue of a semaphore.
    pub open spec fn waits_on_semaphore(self, tid: usize) -> bool {
        tid < self.thread_count() && self.semaphores.waiting[tid as int].is_some()
    }

    /// Thread `tid` waits on a condition variable.
    pub open spec fn waits_on_condvar(self, tid: usize) -> bool {
        tid < self.thread_count() && self.condvars.waiting[tid as int].is_some()
    }

    /// Thread `tid` waits for something.
    pub open spec fn parked(self, tid: usize) -> bool {
        self.waits_on_mutex(tid) || self.waits_on_semaphore(tid) || self.waits_on_condvar(tid)
    }

    /// Thread `tid` polls a mutex: it waits, but stays ready to run.
    pub open spec fn spinning(self, tid: usize) -> bool {
        self.mutexes.spinning_on(tid).is_some()
    }

    /// Thread `tid` waits in a queue and cannot run before it is woken.
    pub open spec fn blocked(self, tid: usize) -> bool {
        self.parked(tid) && !self.spinning(tid)
    }

    /// The three tables are well-formed and know the same threads; a thread
    /// waits in at most one of them; and each class holds its own kind of
    /// primitive.
    pub open spec fn wf(self) -> bool {
        &&& self.mutexes.wf()
        &&& self.semaphores.wf()
        &&& self.condvars.wf()
        &&& self.mutexes.threads() == self.thread_count()
        &&& self.semaphores.threads() == self.thread_count()
        &&& self.condvars.threads() == self.thread_count()
        &&& forall|t: int|
            0 <= t < self.thread_count() ==> {
                &&& !((#[trigger] self.mutexes.waiting[t]).is_some()
                    && self.semaphores.waiting[t].is_some())
                &&& !(self.mutexes.waiting[t].is_some() && self.condvars.waiting[t].is_some())
                &&& !(self.semaphores.waiting[t].is_some() && self.condvars.waiting[t].is_some())
            }
        &&& forall|r: int|
            0 <= r < self.mutexes.resources() && (#[trigger] self.mutexes.slots[r]).is_some()
                ==> self.mutexes.slots[r].unwrap().kind != Kind::Semaphore
        &&& forall|r: int|
            0 <= r < self.semaphores.resources() && (#[trigger] self.semaphores.slots[r]).is_some()
                ==> self.semaphores.slots[r].unwrap().kind == Kind::Semaphore
    }

    /// What a lock request of thread `tid` on mutex `id` comes to.
    pub open spec fn mutex_lock_outcome(self, tid: usize, id: usize) -> Result<Acquire, SyncError> {
        if self.waits_on_semaphore(tid) || self.waits_on_condvar(tid) {
            Err(SyncError::InvalidArgument)
        } else {
            self.mutexes.acquire_outcome(tid, id, self.detect)
        }
    }

    /// The process after that lock request.
    pub open spec fn mutex_locked(self, tid: usize, id: usize) -> ProcessView {
        if self.waits_on_semaphore(tid) || self.waits_on_condvar(tid) {
            self
        } else {
            ProcessView { mutexes: self.mutexes.acquired(tid, id, self.detect), ..self }
        }
    }

    /// The process after thread `tid` unlocked mutex `id`.
    pub open spec fn mutex_unlocked(self, tid: usize, id: usize) -> ProcessView {
        ProcessView { mutexes: self.mutexes.released(tid, id), ..self }
    }

    /// The process after thread `tid` polled its mutex again.
    pub open spec fn mutex_polled(self, tid: usize) -> ProcessView {
        ProcessView { mutexes: self.mutexes.polled(tid), ..self }
    }

    /// What a down request of thread `tid` on semaphore `id` comes to.
    pub open spec fn semaphore_down_outcome(self, tid: usize, id: usize) -> Result<
        Acquire,
        SyncError,
    > {
        if self.waits_on_mutex(tid) || self.waits_on_condvar(tid) {
            Err(SyncError::InvalidArgument)
        } else {
            self.semaphores.acquire_outcome(tid, id, self.detect)
        }
    }

    /// The process after that down request.
    pub open spec fn semaphore_downed(self, tid: usize, id: usize) -> ProcessView {
        if self.waits_on_mutex(tid) || self.waits_on_condvar(tid) {
            self
        } else {
            ProcessView { semaphores: self.semaphores.acquired(tid, id, self.detect), ..self }
        }
    }

    /// The process after thread `tid` raised semaphore `id`.
    pub open spec fn semaphore_upped(self, tid: usize, id: usize) -> ProcessView {
        ProcessView { semaphores: self.semaphores.released(tid, id), ..self }
    }

    /// What a wait of thread `tid` on condition variable `condvar_id` with
    /// mutex `mutex_id` comes to: the thread that the mutex goes to, if any.
    pub open spec fn condvar_wait_outcome(
        self,
        tid: usize,
        condvar_id: usize,
        mutex_id: usize,
    ) -> Result<Option<usize>, SyncError> {
        if tid >= self.thread_count() || !self.condvars.occupied(condvar_id) {
            Err(SyncError::InvalidHandle)
        } else if self.parked(tid) {
            Err(SyncError::InvalidArgument)
        } else {
            self.mutexes.release_outcome(tid, mutex_id)
        }
    }

    /// The process after that wait: unchanged if it was refused; otherwise
    /// the mutex is released and the thread at the back of the condition
    /// variable's queue.
    pub open spec fn condvar_waited(
        self,
        tid: usize,
        condvar_id: usize,
        mutex_id: usize,
    ) -> ProcessView {
        if self.condvar_wait_outcome(tid, condvar_id, mutex_id).is_ok() {
            ProcessView {
                mutexes: self.mutexes.released(tid, mutex_id),
                condvars: self.condvars.waited(tid, condvar_id),
                ..self
            }
        } else {
            self
        }
    }

    /// The process after a signal on condition variable `id`.
    pub open spec fn condvar_signalled(self, id: usize) -> ProcessView {
        ProcessView { condvars: self.condvars.after_signal(id), ..self }
    }

    /// The process after a thread, unit `unit` of the kernel, joined it.
    pub open spec fn with_thread(self, unit: usize) -> ProcessView {
        ProcessView {
            threads: self.threads.push(unit),
            mutexes: self.mutexes.with_thread(),
            semaphores: self.semaphores.with_thread(),
            condvars: self.condvars.with_thread(),
            ..self
        }
    }
}

impl ProcessControlBlock {
    /// The process's tables are consistent.
    pub open spec fn wf(&self) -> bool {
        self@.wf()
    }

    /// A process without threads, children or resources, with the safety
    /// check off.
    pub fn new(pid: usize, parent: Option<usize>, memory_token: usize) -> (process:
        ProcessControlBlock)
        ensures
            process.wf(),
            process@ == ProcessView::empty(pid, parent, memory_token),
    {
        ProcessControlBlock {
            pid,
            parent,
            children: Vec::new(),
            threads: Vec::new(),
            memory_token,
            is_zombie: false,
            exit_code: 0,
            deadlock_detect: false,
            mutexes: ResourceClass::new(),
            semaphores: ResourceClass::new(),
            condvars: CondvarTable::new(),
            fd_table: vec![
                Some(FileDescriptor::Stdin),
                Some(FileDescriptor::Stdout),
                Some(FileDescriptor::Stdout),
            ],
        }
    }

    /// Adds a thread, unit `unit` of the kernel, to the process: every
    /// ledger gets a row of zeros for it. Returns its thread id.
    pub fn add_thread(&mut self, unit: usize) -> (tid: usize)
        requires
            old(self).wf(),
        ensures
            final(self).wf(),
            tid == old(self)@.thread_count(),
            final(self)@ == old(self)@.with_thread(unit),
    {
        let tid = self.threads.len();
        self.threads.push(unit);
        self.mutexes.add_thread();
        self.semaphores.add_thread();
        self.condvars.add_thread();
        tid
    }

    /// Whether thread `tid` waits for something.
    pub fn is_parked(&self, tid: usize) -> (parked: bool)
        requires
            self.wf(),
        ensures
            parked == self@.parked(tid),
    {
        self.mutexes.waiting_for(tid).is_some() || self.semaphores.waiting_for(tid).is_some()
            || self.condvars.waiting_for(tid).is_some()
    }

    /// Whether thread `tid` polls a mutex.
    pub fn is_spinning(&self, tid: usize) -> (spinning: bool)
        requires
            self.wf(),
        ensures
            spinning == self@.spinning(tid),
    {
        self.mutexes.spinning_on(tid).is_some()
    }

    /// Creates a mutex, queueing if `blocking` and polling if not, in the
    /// lowest free slot of the mutex table, and returns its id.
    pub fn mutex_create(&mut self, blocking: bool) -> (id: usize)
        requires
            old(self).wf(),
        ensures
            final(self).wf(),
            id == old(self)@.mutexes.next_id(),
            final(self)@ == (ProcessView {
                mutexes: old(self)@.mutexes.created(fresh_mutex(blocking), 1),
                ..old(self)@
            }),
    {
        proof {
            lemma_created_wf(old(self)@.mutexes, fresh_mutex(blocking), 1);
        }
        self.mutexes.create_mutex(blocking)
    }

    /// Creates a semaphore of `res_count` units in the lowest free slot of
    /// the semaphore table, and returns its id.
    pub fn semaphore_create(&mut self, res_count: usize) -> (id: usize)
        requires
            old(self).wf(),
        ensures
            final(self).wf(),
            id == old(self)@.semaphores.next_id(),
            final(self)@ == (ProcessView {
                semaphores: old(self)@.semaphores.created(fresh_semaphore(res_count), res_count),
                ..old(self)@
            }),
    {
        proof {
            lemma_created_wf(old(self)@.semaphores, fresh_semaphore(res_count), res_count);
        }
        self.semaphores.create_semaphore(res_count)
    }

    /// Creates a condition variable in the lowest free slot of its table,
    /// and returns its id.
    pub fn condvar_create(&mut self) -> (id: usize)
        requires
            old(self).wf(),
        ensures
            final(self).wf(),
            id == old(self)@.condvars.next_id(),
            final(self)@ == (ProcessView { condvars: old(self)@.condvars.created(), ..old(self)@ }),
    {
        self.condvars.create()
    }

    /// Locks mutex `id` for thread `tid`, with the safety check if the
    /// process has switched it on. A thread that waits elsewhere cannot
    /// lock.
    pub fn mutex_lock(&mut self, tid: usize, id: usize) -> (outcome: Result<Acquire, SyncError>)
        requires
            old(self).wf(),
        ensures
            final(self).wf(),
            outcome == old(self)@.mutex_lock_outcome(tid, id),
            final(self)@ == old(self)@.mutex_locked(tid, id),
    {
        if self.semaphores.waiting_for(tid).is_some() || self.condvars.waiting_for(tid).is_some() {
            return Err(SyncError::InvalidArgument);
        }
        proof {
            lemma_acquired_wf(old(self)@.mutexes, tid, id, old(self)@.detect);
        }
        self.mutexes.acquire(tid, id, self.deadlock_detect)
    }

    /// Unlocks mutex `id` for thread `tid`, and returns the thread that the
    /// mutex went to, for the caller to make ready.
    pub fn mutex_unlock(&mut self, tid: usize, id: usize) -> (outcome: Result<
        Option<usize>,
        SyncError,
    >)
        requires
            old(self).wf(),
        ensures
            final(self).wf(),
            outcome == old(self)@.mutexes.release_outcome(tid, id),
            final(self)@ == old(self)@.mutex_unlocked(tid, id),
    {
        proof {
            lemma_released_wf(old(self)@.mutexes, tid, id);
        }
        self.mutexes.release(tid, id)
    }

    /// Polls again for thread `tid`, which waits for a polling mutex.
    pub fn mutex_poll(&mut self, tid: usize) -> (outcome: Result<Acquire, SyncError>)
        requires
            old(self).wf(),
        ensures
            final(self).wf(),
            outcome == old(self)@.mutexes.poll_outcome(tid),
            final(self)@ == old(self)@.mutex_polled(tid),
    {
        proof {
            lemma_polled_wf(old(self)@.mutexes, tid);
        }
        self.mutexes.poll(tid)
    }

    /// Takes one unit of semaphore `id` for thread `tid`, with the safety
    /// check if the process has switched it on. A thread that waits
    /// elsewhere cannot take one.
    pub fn semaphore_down(&mut self, tid: usize, id: usize) -> (outcome: Result<
        Acquire,
        SyncError,
    >)
        requires
            old(self).wf(),
        ensures
            final(self).wf(),
            outcome == old(self)@.semaphore_down_outcome(tid, id),
            final(self)@ == old(self)@.semaphore_downed(tid, id),
    {
        if self.mutexes.waiting_for(tid).is_some() || self.condvars.waiting_for(tid).is_some() {
            return Err(SyncError::InvalidArgument);
        }
        proof {
            lemma_acquired_wf(old(self)@.semaphores, tid, id, old(self)@.detect);
        }
        self.semaphores.acquire(tid, id, self.deadlock_detect)
    }

    /// Raises semaphore `id` for thread `tid`, which gives one unit back or,
    /// if it holds none, puts a further unit in, and returns the thread
    /// that the unit went to, for the caller to make ready.
    pub fn semaphore_up(&mut self, tid: usize, id: usize) -> (outcome: Result<
        Option<usize>,
        SyncError,
    >)
        requires
            old(self).wf(),
        ensures
            final(self).wf(),
            outcome == old(self)@.semaphores.release_outcome(tid, id),
            final(self)@ == old(self)@.semaphore_upped(tid, id),
    {
        proof {
            lemma_released_wf(old(self)@.semaphores, tid, id);
        }
        self.semaphores.release(tid, id)
    }

    /// Signals condition variable `id`, and returns the thread that it woke,
    /// for the caller to make ready. Without waiters nothing changes.
    pub fn condvar_signal(&mut self, id: usize) -> (outcome: Result<Option<usize>, SyncError>)
        requires
            old(self).wf(),
        ensures
            final(self).wf(),
            outcome == old(self)@.condvars.signal_outcome(id),
            final(self)@ == old(self)@.condvar_signalled(id),
    {
        proof {
            crate::sync::condvars::lemma_condvar_signal_wf(old(self)@.condvars, id);
        }
        self.condvars.signal(id)
    }

    /// Lets thread `tid` wait on condition variable `condvar_id`: in one
    /// step mutex `mutex_id` is released for it and the thread joins the
    /// condition variable's queue. The caller has to block the thread and to
    /// make ready the thread that is returned: the one that the mutex went
    /// to. Once signalled, the thread locks the mutex again by itself.
    pub fn condvar_wait(&mut self, tid: usize, condvar_id: usize, mutex_id: usize) -> (outcome:
        Result<Option<usize>, SyncError>)
        requires
            old(self).wf(),
        ensures
            final(self).wf(),
            outcome == old(self)@.condvar_wait_outcome(tid, condvar_id, mutex_id),
            final(self)@ == old(self)@.condvar_waited(tid, condvar_id, mutex_id),
    {
        if tid >= self.threads.len() {
            return Err(SyncError::InvalidHandle);
        }
        if condvar_id >= self.condvars.slots.len() {
            return Err(SyncError::InvalidHandle);
        }
        if self.condvars.slots[condvar_id].is_none() {
            return Err(SyncError::InvalidHandle);
        }
        if self.is_parked(tid) {
            return Err(SyncError::InvalidArgument);
        }
        proof {
            lemma_released_wf(old(self)@.mutexes, tid, mutex_id);
            crate::sync::condvars::lemma_condvar_waited_wf(old(self)@.condvars, tid, condvar_id);
        }
        match self.mutexes.release(tid, mutex_id) {
            Err(e) => Err(e),
            Ok(woken) => {
                let queued = self.condvars.wait(tid, condvar_id);
                assert(queued.is_ok());
                Ok(woken)
            },
        }
    }

    /// Switches the safety check on (1) or off (0); any other value is
    /// refused and changes nothing.
    pub fn enable_deadlock_detect(&mut self, enabled: usize) -> (outcome: Result<(), SyncError>)
        ensures
            enabled <= 1 ==> outcome.is_ok() && final(self)@ == (ProcessView {
                detect: enabled == 1,
                ..old(self)@
            }),
            enabled > 1 ==> {
                &&& outcome == Err::<(), SyncError>(SyncError::InvalidArgument)
                &&& final(self)@ == old(self)@
            },
    {
        if enabled == 0 {
            self.deadlock_detect = false;
            Ok(())
        } else if enabled == 1 {
            self.deadlock_detect = true;
            Ok(())
        } else {
            Err(SyncError::InvalidArgument)
        }
    }

    /// Removes mutex `id` and frees its slot for the next mutex. A mutex
    /// that some thread holds or awaits stays.
    pub fn mutex_remove(&mut self, id: usize) -> (outcome: Result<(), SyncError>)
        requires
            old(self).wf(),
        ensures
            final(self).wf(),
            outcome == old(self)@.mutexes.remove_outcome(id),
            final(self)@ == (ProcessView { mutexes: old(self)@.mutexes.removed(id), ..old(self)@ }),
    {
        proof {
            lemma_removed_wf(old(self)@.mutexes, id);
        }
        self.mutexes.remove(id)
    }

    /// Removes semaphore `id` and frees its slot for the next semaphore. A
    /// semaphore that some thread holds or awaits stays.
    pub fn semaphore_remove(&mut self, id: usize) -> (outcome: Result<(), SyncError>)
        requires
            old(self).wf(),
        ensures
            final(self).wf(),
            outcome == old(self)@.semaphores.remove_outcome(id),
            final(self)@ == (ProcessView {
                semaphores: old(self)@.semaphores.removed(id),
                ..old(self)@
            }),
    {
        proof {
            lemma_removed_wf(old(self)@.semaphores, id);
        }
        self.semaphores.remove(id)
    }

    /// Removes condition variable `id` and frees its slot for the next one.
    /// A condition variable that threads wait on stays.
    pub fn condvar_remove(&mut self, id: usize) -> (outcome: Result<(), SyncError>)
        requires
            old(self).wf(),
        ensures
            final(self).wf(),
            outcome == old(self)@.condvars.remove_outcome(id),
            final(self)@ == (ProcessView {
                condvars: old(self)@.condvars.removed(id),
                ..old(self)@
            }),
    {
        self.condvars.remove(id)
    }
}

/// How a thread stands to the resources of its process.
#[derive(Clone, Copy, PartialEq, Eq, Debug, Structural)]
pub enum WaitState {
    /// It waits for nothing.
    Free,
    /// It polls a mutex: it waits, and runs whenever it is dispatched.
    Polling,
    /// It stands in a wait queue and cannot run before it is woken.
    Queued,
}

impl ProcessView {
    /// How thread `tid` stands to the resources of the process.
    pub open spec fn wait_state(self, tid: usize) -> WaitState {
        if !self.parked(tid) {
            WaitState::Free
        } else if self.spinning(tid) {
            WaitState::Polling
        } else {
            WaitState::Queued
        }
    }
}

/// A queued thread stands in the wait queue of the one resource that it is
/// recorded as waiting for: a mutex with a queue, a semaphore, or a
/// condition variable.
pub proof fn lemma_queued_thread_is_listed(v: ProcessView, tid: usize)
    requires
        v.wf(),
        v.wait_state(tid) == WaitState::Queued,
    ensures
        tid < v.thread_count(),
        v.waits_on_mutex(tid) ==> !v.waits_on_semaphore(tid) && !v.waits_on_condvar(tid) && listed(
            v.mutexes.primitive(v.mutexes.waiting[tid as int].unwrap()).waiters,
            tid as int,
        ),
        v.waits_on_semaphore(tid) ==> !v.waits_on_mutex(tid) && !v.waits_on_condvar(tid) && listed(
            v.semaphores.primitive(v.semaphores.waiting[tid as int].unwrap()).waiters,
            tid as int,
        ),
        v.waits_on_condvar(tid) ==> !v.waits_on_mutex(tid) && !v.waits_on_semaphore(tid) && listed(
            v.condvars.queue(v.condvars.waiting[tid as int].unwrap()),
            tid as int,
        ),
        v.waits_on_mutex(tid) || v.waits_on_semaphore(tid) || v.waits_on_condvar(tid),
{
    if v.waits_on_semaphore(tid) {
        let r = v.semaphores.waiting[tid as int].unwrap();
        assert(v.semaphores.occupied(r));
        assert(v.semaphores.slots[r as int].is_some());
    }
}

/// A lock request changes how the requesting thread stands, and no other:
/// it is queued or polls if the request says so, and otherwise stands as
/// before. A request that is not refused comes from a thread that waits for
/// nothing.
pub proof fn lemma_lock_waits(v: ProcessView, tid: usize, id: usize)
    requires
        v.wf(),
    ensures
        forall|t: usize| t != tid ==> #[trigger] v.mutex_locked(tid, id).wait_state(t) == v.wait_state(t),
        v.mutex_locked(tid, id).wait_state(tid) == (match v.mutex_lock_outcome(tid, id) {
            Ok(Acquire::Blocked) => WaitState::Queued,
            Ok(Acquire::Spin) => WaitState::Polling,
            _ => v.wait_state(tid),
        }),
        v.mutex_lock_outcome(tid, id).is_ok() ==> v.wait_state(tid) == WaitState::Free && tid
            < v.thread_count(),
{
}

/// The same for a down request, which never polls.
pub proof fn lemma_down_waits(v: ProcessView, tid: usize, id: usize)
    requires
        v.wf(),
    ensures
        forall|t: usize|
            t != tid ==> #[trigger] v.semaphore_downed(tid, id).wait_state(t) == v.wait_state(t),
        v.semaphore_downed(tid, id).wait_state(tid) == (match v.semaphore_down_outcome(tid, id) {
            Ok(Acquire::Blocked) => WaitState::Queued,
            _ => v.wait_state(tid),
        }),
        v.semaphore_down_outcome(tid, id).is_ok() ==> v.wait_state(tid) == WaitState::Free && tid
            < v.thread_count(),
        v.semaphore_down_outcome(tid, id) != Ok::<Acquire, SyncError>(Acquire::Spin),
{
    if v.semaphore_down_outcome(tid, id).is_ok() {
        assert(v.semaphores.slots[id as int].is_some());
    }
}

/// An unlock changes how the woken thread stands, and no other: it was
/// queued and now waits for nothing.
pub proof fn lemma_unlock_waits(v: ProcessView, tid: usize, id: usize)
    requires
        v.wf(),
    ensures
        match v.mutexes.release_outcome(tid, id) {
            Ok(Some(w)) => {
                &&& w < v.thread_count()
                &&& v.wait_state(w) == WaitState::Queued
                &&& v.mutex_unlocked(tid, id).wait_state(w) == WaitState::Free
                &&& forall|t: usize|
                    t != w ==> #[trigger] v.mutex_unlocked(tid, id).wait_state(t) == v.wait_state(
                        t,
                    )
            },
            _ => forall|t: usize| #[trigger]
                v.mutex_unlocked(tid, id).wait_state(t) == v.wait_state(t),
        },
{
    lemma_released_wf(v.mutexes, tid, id);
}

/// The same for raising a semaphore.
pub proof fn lemma_up_waits(v: ProcessView, tid: usize, id: usize)
    requires
        v.wf(),
    ensures
        match v.semaphores.release_outcome(tid, id) {
            Ok(Some(w)) => {
                &&& w < v.thread_count()
                &&& v.wait_state(w) == WaitState::Queued
                &&& v.semaphore_upped(tid, id).wait_state(w) == WaitState::Free
                &&& forall|t: usize|
                    t != w ==> #[trigger] v.semaphore_upped(tid, id).wait_state(t) == v.wait_state(
                        t,
                    )
            },
            _ => forall|t: usize| #[trigger]
                v.semaphore_upped(tid, id).wait_state(t) == v.wait_state(t),
        },
{
    lemma_released_wf(v.semaphores, tid, id);
}

/// A poll that takes the mutex frees the polling thread; any other poll
/// changes nothing.
pub proof fn lemma_poll_waits(v: ProcessView, tid: usize)
    requires
        v.wf(),
    ensures
        forall|t: usize| t != tid ==> #[trigger] v.mutex_polled(tid).wait_state(t) == v.wait_state(t),
        v.mutex_polled(tid).wait_state(tid) == (match v.mutexes.poll_outcome(tid) {
            Ok(Acquire::Granted) => WaitState::Free,
            _ => v.wait_state(tid),
        }),
        v.mutexes.poll_outcome(tid).is_ok() <==> v.wait_state(tid) == WaitState::Polling,
        v.mutexes.poll_outcome(tid) != Ok::<Acquire, SyncError>(Acquire::Blocked),
{
}

/// A signal changes how the woken thread stands, and no other: it was
/// queued and now waits for nothing.
pub proof fn lemma_signal_waits(v: ProcessView, id: usize)
    requires
        v.wf(),
    ensures
        match v.condvars.signal_outcome(id) {
            Ok(Some(w)) => {
                &&& w < v.thread_count()
                &&& v.wait_state(w) == WaitState::Queued
                &&& v.condvar_signalled(id).wait_state(w) == WaitState::Free
                &&& forall|t: usize|
                    t != w ==> #[trigger] v.condvar_signalled(id).wait_state(t) == v.wait_state(t)
            },
            _ => v.condvar_signalled(id) == v,
        },
{
    crate::sync::condvars::lemma_condvar_signal_wf(v.condvars, id);
}

/// A wait on a condition variable queues the waiting thread, frees the
/// thread that its mutex goes to, and changes no other.
pub proof fn lemma_condvar_wait_waits(
    v: ProcessView,
    tid: usize,
    condvar_id: usize,
    mutex_id: usize,
)
    requires
        v.wf(),
    ensures
        match v.condvar_wait_outcome(tid, condvar_id, mutex_id) {
            Ok(woken) => {
                let after = v.condvar_waited(tid, condvar_id, mutex_id);
                &&& tid < v.thread_count()
                &&& v.wait_state(tid) == WaitState::Free
                &&& after.wait_state(tid) == WaitState::Queued
                &&& woken.is_some() ==> {
                    let w = woken.unwrap();
                    &&& w < v.thread_count()
                    &&& w != tid
                    &&& v.wait_state(w) == WaitState::Queued
                    &&& after.wait_state(w) == WaitState::Free
                }
                &&& forall|t: usize|
                    t != tid && woken != Some(t) ==> #[trigger] after.wait_state(t) == v.wait_state(
                        t,
                    )
            },
            Err(_) => v.condvar_waited(tid, condvar_id, mutex_id) == v,
        },
{
    lemma_released_wf(v.mutexes, tid, mutex_id);
}

/// A new thread waits for nothing and leaves the others as they stand.
pub proof fn lemma_with_thread_waits(v: ProcessView, unit: usize)
    requires
        v.wf(),
        v.thread_count() < usize::MAX,
    ensures
        v.with_thread(unit).wf(),
        v.with_thread(unit).wait_state(v.thread_count() as usize) == WaitState::Free,
        forall|t: usize|
            t < v.thread_count() ==> #[trigger] v.with_thread(unit).wait_state(t) == v.wait_state(t),
{
    crate::ledger::class::lemma_class_with_thread_wf(v.mutexes);
    crate::ledger::class::lemma_class_with_thread_wf(v.semaphores);
    crate::sync::condvars::lemma_condvar_with_thread_wf(v.condvars);
}

/// Creating or removing a resource leaves every thread as it stands: no
/// thread waits for a resource that is new, and none for one that could be
/// removed.
pub proof fn lemma_tables_keep_waits(v: ProcessView, after: ProcessView)
    requires
        v.wf(),
        after.threads == v.threads,
        ({
            ||| exists|blocking: bool|
                after == (ProcessView {
                    mutexes: v.mutexes.created(fresh_mutex(blocking), 1),
                    ..v
                })
            ||| exists|res_count: usize|
                after == (ProcessView {
                    semaphores: v.semaphores.created(fresh_semaphore(res_count), res_count),
                    ..v
                })
            ||| after == (ProcessView { condvars: v.condvars.created(), ..v })
            ||| exists|id: usize| after == (ProcessView { mutexes: v.mutexes.removed(id), ..v })
            ||| exists|id: usize| after == (ProcessView {
                semaphores: v.semaphores.removed(id),
                ..v
            })
            ||| exists|id: usize| after == (ProcessView { condvars: v.condvars.removed(id), ..v })
            ||| exists|detect: bool| after == (ProcessView { detect, ..v })
        }),
    ensures
        forall|t: usize| #[trigger] after.wait_state(t) == v.wait_state(t),
{
    assert forall|t: usize| #[trigger] after.wait_state(t) == v.wait_state(t) by {
        if t < v.thread_count() && v.mutexes.waiting[t as int].is_some() {
            let r = v.mutexes.waiting[t as int].unwrap();
            assert(v.mutexes.occupied(r));
            crate::table::lemma_lowest_free(occupancy(v.mutexes.slots));
            assert(occupancy(v.mutexes.slots)[r as int]);
        }
    }
}

} // verus!
