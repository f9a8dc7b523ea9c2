//! The condition variables of a process, by id, with the record of which
//! thread waits on which.
use crate::error::SyncError;
use crate::ledger::class::{aims_at, listed};
use crate::sync::condvar::{signalled, Condvar};
use crate::sync::head;
use crate::table::{lemma_lowest_free, lowest_free, occupancy};
use vstd::prelude::*;

verus! {

/// The condition variables of one process.
pub struct CondvarTable {
    /// The condition variables by id; a removed one leaves its slot empty.
    pub slots: Vec<Option<Condvar>>,
    /// For each thread the condition variable that it waits on.
    pub waiting: Vec<Option<usize>>,
}

/// The condition variables of one process as plain values.
pub struct CondvarsView {
    /// The wait queue of each condition variable, by id.
    pub queues: Seq<Option<Seq<usize>>>,
    /// For each thread the condition variable that it waits on.
    pub waiting: Seq<Option<usize>>,
}

/// The wait queues of a slot table.
pub open spec fn queue_views(slots: Seq<Option<Condvar>>) -> Seq<Option<Seq<usize>>> {
    Seq::new(
        slots.len(),
        |c: int|
            match slots[c] {
                Some(condvar) => Some(condvar.wait_queue@),
                None => None,
            },
    )
}

impl View for CondvarTable {
    type V = CondvarsView;

    open spec fn view(&self) -> CondvarsView {
        CondvarsView { queues: queue_views(self.slots@), waiting: self.waiting@ }
    }
}

impl CondvarsView {
    /// The table without condition variables or threads.
    pub open spec fn empty() -> CondvarsView {
        CondvarsView { queues: Seq::empty(), waiting: Seq::empty() }
    }

    /// Number of threads of the process.
    pub open spec fn threads(self) -> nat {
        self.waiting.len()
    }

    /// Slot `id` exists and holds a condition variable.
    pub open spec fn occupied(self, id: usize) -> bool {
        id < self.queues.len() && self.queues[id as int].is_some()
    }

    /// The wait queue of condition variable `id`.
    pub open spec fn queue(self, id: usize) -> Seq<usize> {
        self.queues[id as int].unwrap()
    }

    /// Every thread in the queue of slot `c` is there once and recorded as
    /// waiting on `c`.
    pub open spec fn slot_ok(self, c: int) -> bool {
        match self.queues[c] {
            None => true,
            Some(queue) => {
                &&& queue.no_duplicates()
                &&& forall|i: int|
                    0 <= i < queue.len() ==> (#[trigger] queue[i]) < self.threads() && aims_at(
                        self.waiting[queue[i] as int],
                        c,
                    )
            },
        }
    }

    /// Threads wait on condition variables that exist and stand in their
    /// queues, and the queues agree with the waiting record.
    pub open spec fn wf(self) -> bool {
        &&& forall|t: int|
            0 <= t < self.threads() && (#[trigger] self.waiting[t]).is_some() ==> self.occupied(
                self.waiting[t].unwrap(),
            ) && listed(self.queue(self.waiting[t].unwrap()), t)
        &&& forall|c: int| 0 <= c < self.queues.len() ==> #[trigger] self.slot_ok(c)
    }

    /// The id that the next condition variable gets: the lowest free slot.
    pub open spec fn next_id(self) -> int {
        lowest_free(occupancy(self.queues))
    }

    /// The table after a condition variable was created.
    pub open spec fn created(self) -> CondvarsView {
        let id = self.next_id();
        if id < self.queues.len() {
            CondvarsView { queues: self.queues.update(id, Some(Seq::empty())), ..self }
        } else {
            CondvarsView { queues: self.queues.push(Some(Seq::empty())), ..self }
        }
    }

    /// What letting thread `tid` wait on `id` comes to.
    pub open spec fn wait_outcome(self, tid: usize, id: usize) -> Result<(), SyncError> {
        if tid >= self.threads() || !self.occupied(id) {
            Err(SyncError::InvalidHandle)
        } else if self.waiting[tid as int].is_some() {
            Err(SyncError::InvalidArgument)
        } else {
            Ok(())
        }
    }

    /// The table after that: the thread is at the back of the queue.
    pub open spec fn waited(self, tid: usize, id: usize) -> CondvarsView {
        if self.wait_outcome(tid, id).is_ok() {
            CondvarsView {
                queues: self.queues.update(id as int, Some(self.queue(id).push(tid))),
                waiting: self.waiting.update(tid as int, Some(id)),
            }
        } else {
            self
        }
    }

    /// What a signal on `id` comes to: the thread that it wakes, if any.
    pub open spec fn signal_outcome(self, id: usize) -> Result<Option<usize>, SyncError> {
        if !self.occupied(id) {
            Err(SyncError::InvalidHandle)
        } else {
            Ok(head(self.queue(id)))
        }
    }

    /// The table after that signal: the earliest waiter has left the queue
    /// and waits no longer; without waiters nothing has changed.
    pub open spec fn after_signal(self, id: usize) -> CondvarsView {
        match self.signal_outcome(id) {
            Ok(Some(w)) => CondvarsView {
                queues: self.queues.update(id as int, Some(signalled(self.queue(id)))),
                waiting: self.waiting.update(w as int, None),
            },
            _ => self,
        }
    }

    /// Some thread waits on condition variable `id`.
    pub open spec fn in_use(self, id: usize) -> bool {
        exists|t: int| 0 <= t < self.threads() && #[trigger] self.waiting[t] == Some(id)
    }

    /// What the removal of `id` comes to.
    pub open spec fn remove_outcome(self, id: usize) -> Result<(), SyncError> {
        if !self.occupied(id) {
            Err(SyncError::InvalidHandle)
        } else if self.in_use(id) {
            Err(SyncError::Busy)
        } else {
            Ok(())
        }
    }

    /// The table after that removal.
    pub open spec fn removed(self, id: usize) -> CondvarsView {
        if self.remove_outcome(id).is_ok() {
            CondvarsView { queues: self.queues.update(id as int, None), ..self }
        } else {
            self
        }
    }

    /// The table after a thread joined the process.
    pub open spec fn with_thread(self) -> CondvarsView {
        CondvarsView { waiting: self.waiting.push(None), ..self }
    }
}

/// A new condition variable leaves the table well-formed, in a reused slot
/// as in a new one.
pub proof fn lemma_condvar_created_wf(v: CondvarsView)
    requires
        v.wf(),
    ensures
        v.created().wf(),
        0 <= v.next_id() <= v.queues.len(),
{
    let after = v.created();
    lemma_lowest_free(occupancy(v.queues));
    assert forall|c: int| 0 <= c < after.queues.len() implies #[trigger] after.slot_ok(c) by {
        if c != v.next_id() {
            assert(v.slot_ok(c));
        }
    }
    assert forall|t: int|
        0 <= t < after.threads() && (#[trigger] after.waiting[t]).is_some() implies after.occupied(
        after.waiting[t].unwrap(),
    ) && listed(after.queue(after.waiting[t].unwrap()), t) by {
        assert(v.waiting[t].is_some());
        let c = v.waiting[t].unwrap();
        let old_queue = v.queue(c);
        let i = choose|i: int| 0 <= i < old_queue.len() && #[trigger] old_queue[i] == t;
        assert(occupancy(v.queues)[c as int]);
        assert(after.queue(c)[i] == t);
    }
}

/// A wait leaves the table well-formed, whatever it comes to.
pub proof fn lemma_condvar_waited_wf(v: CondvarsView, tid: usize, id: usize)
    requires
        v.wf(),
    ensures
        v.waited(tid, id).wf(),
{
    let after = v.waited(tid, id);
    if v.wait_outcome(tid, id).is_ok() {
        let queue = v.queue(id);
        assert(v.slot_ok(id as int));
        assert(!queue.contains(tid)) by {
            if queue.contains(tid) {
                let i = choose|i: int| 0 <= i < queue.len() && queue[i] == tid;
                assert(aims_at(v.waiting[queue[i] as int], id as int));
            }
        }
        assert forall|c: int| 0 <= c < after.queues.len() implies #[trigger] after.slot_ok(c) by {
            assert(v.slot_ok(c));
            if after.queues[c].is_some() {
                let q = after.queues[c].unwrap();
                assert forall|i: int| 0 <= i < q.len() implies (#[trigger] q[i]) < after.threads()
                    && aims_at(after.waiting[q[i] as int], c) by {
                    if c == id && i == queue.len() {
                    } else {
                        let w = v.queues[c].unwrap()[i];
                        assert(aims_at(v.waiting[w as int], c));
                    }
                }
                if c == id {
                    assert forall|i: int, j: int|
                        0 <= i < q.len() && 0 <= j < q.len() && i != j implies q[i] != q[j] by {
                        if i < queue.len() {
                            assert(queue.contains(q[i]));
                        }
                        if j < queue.len() {
                            assert(queue.contains(q[j]));
                        }
                    }
                }
            }
        }
        assert forall|t: int|
            0 <= t < after.threads() && (#[trigger] after.waiting[t]).is_some() implies after.occupied(
            after.waiting[t].unwrap(),
        ) && listed(after.queue(after.waiting[t].unwrap()), t) by {
            if t != tid {
                assert(v.waiting[t].is_some());
                let c = v.waiting[t].unwrap();
                let old_queue = v.queue(c);
                let i = choose|i: int| 0 <= i < old_queue.len() && #[trigger] old_queue[i] == t;
                assert(after.queue(c)[i] == t);
            } else {
                assert(after.queue(id)[queue.len() as int] == tid);
            }
        }
    }
}

/// A signal leaves the table well-formed, and the thread that it wakes was
/// recorded as waiting on the signalled condition variable.
pub proof fn lemma_condvar_signal_wf(v: CondvarsView, id: usize)
    requires
        v.wf(),
    ensures
        v.after_signal(id).wf(),
        v.signal_outcome(id).is_ok() && v.signal_outcome(id).unwrap().is_some() ==> {
            let w = v.signal_outcome(id).unwrap().unwrap();
            w < v.threads() && v.waiting[w as int] == Some(id)
        },
{
    let after = v.after_signal(id);
    match v.signal_outcome(id) {
        Ok(Some(w)) => {
            let queue = v.queue(id);
            assert(v.slot_ok(id as int));
            assert(aims_at(v.waiting[queue[0] as int], id as int));
            assert forall|c: int| 0 <= c < after.queues.len() implies #[trigger] after.slot_ok(
                c,
            ) by {
                assert(v.slot_ok(c));
                if after.queues[c].is_some() {
                    let q = after.queues[c].unwrap();
                    let before = v.queues[c].unwrap();
                    assert forall|i: int| 0 <= i < q.len() implies (#[trigger] q[i])
                        < after.threads() && aims_at(after.waiting[q[i] as int], c) by {
                        if c == id {
                            assert(q[i] == before[i + 1]);
                            assert(aims_at(v.waiting[before[i + 1] as int], c));
                        } else {
                            assert(aims_at(v.waiting[before[i] as int], c));
                        }
                    }
                }
            }
            assert forall|t: int|
                0 <= t < after.threads() && (#[trigger] after.waiting[t]).is_some() implies after.occupied(
                after.waiting[t].unwrap(),
            ) && listed(after.queue(after.waiting[t].unwrap()), t) by {
                assert(v.waiting[t].is_some());
                let c = v.waiting[t].unwrap();
                let old_queue = v.queue(c);
                let i = choose|i: int| 0 <= i < old_queue.len() && #[trigger] old_queue[i] == t;
                if c == id {
                    assert(i != 0);
                    assert(after.queue(c)[i - 1] == t);
                } else {
                    assert(after.queue(c)[i] == t);
                }
            }
        },
        _ => {},
    }
}

/// A removal leaves the table well-formed, whatever it comes to.
pub proof fn lemma_condvar_removed_wf(v: CondvarsView, id: usize)
    requires
        v.wf(),
    ensures
        v.removed(id).wf(),
{
    let after = v.removed(id);
    if v.remove_outcome(id).is_ok() {
        assert forall|c: int| 0 <= c < after.queues.len() implies #[trigger] after.slot_ok(c) by {
            assert(v.slot_ok(c));
        }
        assert forall|t: int|
            0 <= t < after.threads() && (#[trigger] after.waiting[t]).is_some() implies after.occupied(
            after.waiting[t].unwrap(),
        ) && listed(after.queue(after.waiting[t].unwrap()), t) by {
            assert(v.waiting[t].is_some());
            assert(v.waiting[t] != Some(id));
            let c = v.waiting[t].unwrap();
            let old_queue = v.queue(c);
            let i = choose|i: int| 0 <= i < old_queue.len() && #[trigger] old_queue[i] == t;
            assert(after.queue(c)[i] == t);
        }
    }
}

/// A new thread leaves the table well-formed.
pub proof fn lemma_condvar_with_thread_wf(v: CondvarsView)
    requires
        v.wf(),
    ensures
        v.with_thread().wf(),
{
    let after = v.with_thread();
    assert forall|c: int| 0 <= c < after.queues.len() implies #[trigger] after.slot_ok(c) by {
        assert(v.slot_ok(c));
        if after.queues[c].is_some() {
            let q = after.queues[c].unwrap();
            assert forall|i: int| 0 <= i < q.len() implies (#[trigger] q[i]) < after.threads()
                && aims_at(after.waiting[q[i] as int], c) by {
                assert(aims_at(v.waiting[q[i] as int], c));
            }
        }
    }
    assert forall|t: int|
        0 <= t < after.threads() && (#[trigger] after.waiting[t]).is_some() implies after.occupied(
        after.waiting[t].unwrap(),
    ) && listed(after.queue(after.waiting[t].unwrap()), t) by {
        assert(t < v.threads());
        assert(v.waiting[t].is_some());
        let c = v.waiting[t].unwrap();
        let old_queue = v.queue(c);
        let i = choose|i: int| 0 <= i < old_queue.len() && #[trigger] old_queue[i] == t;
        assert(after.queue(c)[i] == t);
    }
}

impl CondvarTable {
    /// The queues and the waiting record agree.
    pub open spec fn wf(&self) -> bool {
        self@.wf()
    }

    /// A table without condition variables or threads.
    pub fn new() -> (table: CondvarTable)
        ensures
            table.wf(),
            table@ == CondvarsView::empty(),
    {
        let table = CondvarTable { slots: Vec::new(), waiting: Vec::new() };
        assert(table@.queues =~= Seq::empty());
        table
    }

    /// The id that the next condition variable gets: the lowest free slot.
    pub fn next_id(&self) -> (id: usize)
        ensures
            id == self@.next_id(),
    {
        proof {
            assert(occupancy(self.slots@) =~= occupancy(self@.queues));
        }
        crate::table::find_free(&self.slots)
    }

    /// Gives a new thread of the process its entry.
    pub fn add_thread(&mut self)
        requires
            old(self).wf(),
        ensures
            final(self).wf(),
            final(self)@ == old(self)@.with_thread(),
    {
        self.waiting.push(None);
        proof {
            lemma_condvar_with_thread_wf(old(self)@);
        }
    }

    /// Creates a condition variable in the lowest free slot, and returns its
    /// id.
    pub fn create(&mut self) -> (id: usize)
        requires
            old(self).wf(),
        ensures
            final(self).wf(),
            id == old(self)@.next_id(),
            final(self)@ == old(self)@.created(),
    {
        let id = crate::table::find_free(&self.slots);
        proof {
            lemma_condvar_created_wf(old(self)@);
            assert(occupancy(self.slots@) =~= occupancy(self@.queues));
        }
        if id < self.slots.len() {
            self.slots[id] = Some(Condvar::new());
        } else {
            self.slots.push(Some(Condvar::new()));
        }
        proof {
            assert(self@.queues =~= old(self)@.created().queues);
        }
        id
    }

    /// Puts thread `tid` at the back of the queue of condition variable
    /// `id`; the caller has to block it. A thread that waits already cannot
    /// wait again.
    pub fn wait(&mut self, tid: usize, id: usize) -> (outcome: Result<(), SyncError>)
        requires
            old(self).wf(),
        ensures
            final(self).wf(),
            outcome == old(self)@.wait_outcome(tid, id),
            final(self)@ == old(self)@.waited(tid, id),
    {
        if tid >= self.waiting.len() || id >= self.slots.len() {
            return Err(SyncError::InvalidHandle);
        }
        if self.slots[id].is_none() {
            return Err(SyncError::InvalidHandle);
        }
        if self.waiting[tid].is_some() {
            return Err(SyncError::InvalidArgument);
        }
        proof {
            lemma_condvar_waited_wf(old(self)@, tid, id);
        }
        match &mut self.slots[id] {
            Some(condvar) => {
                condvar.wait(tid);
            },
            None => {},
        }
        self.waiting[tid] = Some(id);
        proof {
            assert(self@.queues =~= old(self)@.waited(tid, id).queues);
        }
        Ok(())
    }

    /// Signals condition variable `id`: the earliest waiter leaves the queue
    /// and is returned for the caller to make ready. Without waiters
    /// nothing changes.
    pub fn signal(&mut self, id: usize) -> (outcome: Result<Option<usize>, SyncError>)
        requires
            old(self).wf(),
        ensures
            final(self).wf(),
            outcome == old(self)@.signal_outcome(id),
            final(self)@ == old(self)@.after_signal(id),
    {
        if id >= self.slots.len() {
            return Err(SyncError::InvalidHandle);
        }
        if self.slots[id].is_none() {
            return Err(SyncError::InvalidHandle);
        }
        proof {
            lemma_condvar_signal_wf(old(self)@, id);
        }
        let woken = match &mut self.slots[id] {
            Some(condvar) => condvar.signal(),
            None => None,
        };
        match woken {
            Some(w) => {
                self.waiting[w] = None;
                proof {
                    assert(self@.queues =~= old(self)@.after_signal(id).queues);
                }
            },
            None => {
                proof {
                    assert(self@.queues =~= old(self)@.queues);
                }
            },
        }
        Ok(woken)
    }

    /// Removes condition variable `id` and frees its slot. One that threads
    /// wait on stays.
    pub fn remove(&mut self, id: usize) -> (outcome: Result<(), SyncError>)
        requires
            old(self).wf(),
        ensures
            final(self).wf(),
            outcome == old(self)@.remove_outcome(id),
            final(self)@ == old(self)@.removed(id),
    {
        if id >= self.slots.len() {
            return Err(SyncError::InvalidHandle);
        }
        if self.slots[id].is_none() {
            return Err(SyncError::InvalidHandle);
        }
        let mut t: usize = 0;
        while t < self.waiting.len()
            invariant
                t <= self.waiting.len(),
                *self == *old(self),
                self.wf(),
                self@.occupied(id),
                forall|u: int| 0 <= u < t ==> self.waiting[u] != Some(id),
            decreases self.waiting.len() - t,
        {
            if self.waiting[t] == Some(id) {
                proof {
                    assert(self@.waiting[t as int] == Some(id));
                }
                return Err(SyncError::Busy);
            }
            t = t + 1;
        }
        proof {
            lemma_condvar_removed_wf(old(self)@, id);
        }
        self.slots[id] = None;
        proof {
            assert(self@.queues =~= old(self)@.removed(id).queues);
        }
        Ok(())
    }

    /// The condition variable that thread `tid` waits on, if any.
    pub fn waiting_for(&self, tid: usize) -> (id: Option<usize>)
        ensures
            id == (if tid < self@.threads() {
                self@.waiting[tid as int]
            } else {
                None
            }),
    {
        if tid < self.waiting.len() {
            self.waiting[tid]
        } else {
            None
        }
    }
}

} // verus!
