//! One resource class of a process: its slot table of primitives, its
//! ledger, and the record of which thread waits for which resource. Every
//! operation moves the primitive and the ledger in one step, so the two
//! never disagree on who holds a unit and who waits for one.
use crate::error::SyncError;
use crate::ledger::matrices::{
    lemma_freed_wf, lemma_granted_wf, lemma_held_bounded, lemma_reset_wf,
    lemma_with_resource_wf, lemma_with_thread_wf, lemma_with_wanted_wf, Ledger, LedgerView,
};
use crate::ledger::sums::lemma_two_rows_bounded;
use crate::sync::primitive::{Kind, Primitive, PrimitiveView};
use crate::sync::{behind_head, head, Acquire};
use crate::table::{lowest_free, occupancy};
use vstd::prelude::*;

verus! {

/// The primitives of one class of a process with their ledger.
pub struct ResourceClass {
    /// The primitives by resource id; a removed one leaves its slot empty.
    pub slots: Vec<Option<Primitive>>,
    /// The free, held and awaited units.
    pub ledger: Ledger,
    /// For each thread the resource of this class that it waits for.
    pub waiting: Vec<Option<usize>>,
}

/// A resource class as plain values.
pub struct ClassView {
    /// The primitives by resource id.
    pub slots: Seq<Option<PrimitiveView>>,
    /// The free, held and awaited units.
    pub ledger: LedgerView,
    /// For each thread the resource of this class that it waits for.
    pub waiting: Seq<Option<usize>>,
}

/// The primitives of a slot table as plain values.
pub open spec fn slot_views(slots: Seq<Option<Primitive>>) -> Seq<Option<PrimitiveView>> {
    Seq::new(
        slots.len(),
        |r: int|
            match slots[r] {
                Some(p) => Some(p@),
                None => None,
            },
    )
}

/// Thread `t` stands in the wait queue `waiters`.
pub open spec fn listed(waiters: Seq<usize>, t: int) -> bool {
    exists|i: int| 0 <= i < waiters.len() && #[trigger] waiters[i] == t
}

/// The record `waiting` names resource `r`.
pub open spec fn aims_at(waiting: Option<usize>, r: int) -> bool {
    waiting.is_some() && waiting.unwrap() == r
}

impl View for ResourceClass {
    type V = ClassView;

    open spec fn view(&self) -> ClassView {
        ClassView {
            slots: slot_views(self.slots@),
            ledger: self.ledger@,
            waiting: self.waiting@,
        }
    }
}

impl ClassView {
    /// The class without resources or threads.
    pub open spec fn empty() -> ClassView {
        ClassView {
            slots: Seq::empty(),
            ledger: LedgerView::empty(),
            waiting: Seq::empty(),
        }
    }

    /// Number of threads of the process.
    pub open spec fn threads(self) -> nat {
        self.waiting.len()
    }

    /// Number of slots, free ones included: resource ids lie below it.
    pub open spec fn resources(self) -> nat {
        self.slots.len()
    }

    /// Slot `rid` exists and holds a primitive.
    pub open spec fn occupied(self, rid: usize) -> bool {
        rid < self.slots.len() && self.slots[rid as int].is_some()
    }

    /// The primitive in slot `rid`.
    pub open spec fn primitive(self, rid: usize) -> PrimitiveView {
        self.slots[rid as int].unwrap()
    }

    /// Thread `t` is a thread of the process and is recorded as waiting for
    /// resource `r`.
    pub open spec fn waits_for(self, t: usize, r: int) -> bool {
        t < self.threads() && aims_at(self.waiting[t as int], r)
    }

    /// The ledger and the primitive of slot `r` agree: an empty slot has no
    /// units; a primitive has as many free units as the ledger says, a
    /// mutex one unit in all, and every thread in the wait queue is there
    /// once and recorded as waiting for `r`.
    pub open spec fn slot_ok(self, r: int) -> bool {
        match self.slots[r] {
            None => self.ledger.available[r] == 0 && self.ledger.total[r] == 0,
            Some(p) => {
                &&& p.wf()
                &&& p.free == self.ledger.available[r]
                &&& p.kind != Kind::Semaphore ==> self.ledger.total[r] == 1
                &&& p.waiters.no_duplicates()
                &&& forall|i: int|
                    0 <= i < p.waiters.len() ==> self.waits_for(#[trigger] p.waiters[i], r)
            },
        }
    }

    /// A thread awaits one unit of the resource that it is recorded as
    /// waiting for, and none of any other.
    pub open spec fn needs_match(self) -> bool {
        forall|t: int, r: int|
            0 <= t < self.threads() && 0 <= r < self.resources() ==> #[trigger] self.ledger.wanted[t][r]
                == (if aims_at(self.waiting[t], r) {
                1usize
            } else {
                0usize
            })
    }

    /// Threads wait for resources that exist.
    pub open spec fn waits_valid(self) -> bool {
        forall|t: int|
            0 <= t < self.threads() && (#[trigger] self.waiting[t]).is_some() ==> self.occupied(
                self.waiting[t].unwrap(),
            )
    }

    /// A thread that is recorded as waiting for a primitive with a queue
    /// stands in that queue.
    pub open spec fn queues_complete(self) -> bool {
        forall|t: int|
            0 <= t < self.threads() && (#[trigger] self.waiting[t]).is_some() && self.primitive(
                self.waiting[t].unwrap(),
            ).queues() ==> listed(self.primitive(self.waiting[t].unwrap()).waiters, t)
    }

    /// The ledger is well-formed, has a column for every slot and a row for
    /// every thread, and agrees with the primitives and the waiting record.
    pub open spec fn wf(self) -> bool {
        &&& self.ledger.wf()
        &&& self.ledger.resources() == self.resources()
        &&& self.ledger.threads() == self.threads()
        &&& self.needs_match()
        &&& self.waits_valid()
        &&& self.queues_complete()
        &&& forall|r: int| 0 <= r < self.resources() ==> #[trigger] self.slot_ok(r)
    }

    /// The class with the primitive of slot `rid` replaced.
    pub open spec fn with_slot(self, rid: usize, p: PrimitiveView) -> ClassView {
        ClassView { slots: self.slots.update(rid as int, Some(p)), ..self }
    }

    /// What a request of thread `tid` for one unit of `rid` comes to, with
    /// the safety check on if `detect`.
    pub open spec fn acquire_outcome(self, tid: usize, rid: usize, detect: bool) -> Result<
        Acquire,
        SyncError,
    > {
        if tid >= self.threads() || !self.occupied(rid) {
            Err(SyncError::InvalidHandle)
        } else if self.waiting[tid as int].is_some() {
            Err(SyncError::InvalidArgument)
        } else if self.ledger.available[rid as int] > 0 {
            Ok(Acquire::Granted)
        } else if detect && !self.ledger.requested(tid as int, rid as int).safe() {
            Err(SyncError::WouldDeadlock)
        } else if self.primitive(rid).queues() {
            Ok(Acquire::Blocked)
        } else {
            Ok(Acquire::Spin)
        }
    }

    /// The class after that request: unchanged if it was refused; the unit
    /// moved from free to held if it was granted; and otherwise the thread
    /// recorded as waiting, in the ledger and, where there is one, in the
    /// primitive's queue.
    pub open spec fn acquired(self, tid: usize, rid: usize, detect: bool) -> ClassView {
        match self.acquire_outcome(tid, rid, detect) {
            Err(_) => self,
            Ok(Acquire::Granted) => ClassView {
                ledger: self.ledger.granted(tid as int, rid as int),
                ..self.with_slot(rid, self.primitive(rid).acquired(tid))
            },
            Ok(_) => ClassView {
                ledger: self.ledger.requested(tid as int, rid as int),
                waiting: self.waiting.update(tid as int, Some(rid)),
                ..self.with_slot(rid, self.primitive(rid).acquired(tid))
            },
        }
    }

    /// Resource `rid` takes a unit from a thread that holds none of it: it
    /// is a semaphore, which a thread may raise without having lowered it,
    /// and the number of its units can still grow.
    pub open spec fn takes_units(self, rid: usize) -> bool {
        self.primitive(rid).kind == Kind::Semaphore && self.ledger.total[rid as int] < usize::MAX
    }

    /// What the release of one unit of `rid` by thread `tid` comes to: the
    /// thread that the unit goes to, if any. A mutex is released by its
    /// holder only.
    pub open spec fn release_outcome(self, tid: usize, rid: usize) -> Result<
        Option<usize>,
        SyncError,
    > {
        if tid >= self.threads() || !self.occupied(rid) {
            Err(SyncError::InvalidHandle)
        } else if self.ledger.held[tid as int][rid as int] == 0 && !self.takes_units(rid) {
            Err(SyncError::NotHeld)
        } else {
            Ok(head(self.primitive(rid).waiters))
        }
    }

    /// The class after that release: unchanged if it was refused. Otherwise
    /// the unit has left `tid`, or has come into being if `tid` held none;
    /// it is free if nobody waited, and else held by the earliest waiter,
    /// which waits no longer.
    pub open spec fn released(self, tid: usize, rid: usize) -> ClassView {
        match self.release_outcome(tid, rid) {
            Err(_) => self,
            Ok(None) => ClassView {
                ledger: self.ledger.freed(tid as int, rid as int),
                ..self.with_slot(rid, self.primitive(rid).released())
            },
            Ok(Some(w)) => ClassView {
                ledger: self.ledger.freed(tid as int, rid as int).admitted(
                    w as int,
                    rid as int,
                ),
                waiting: self.waiting.update(w as int, None),
                ..self.with_slot(rid, self.primitive(rid).released())
            },
        }
    }

    /// The polling mutex that thread `tid` waits for, if it waits for one.
    pub open spec fn spinning_on(self, tid: usize) -> Option<usize> {
        if tid < self.threads() && self.waiting[tid as int].is_some() && !self.primitive(
            self.waiting[tid as int].unwrap(),
        ).queues() {
            self.waiting[tid as int]
        } else {
            None
        }
    }

    /// What the next poll of thread `tid` comes to.
    pub open spec fn poll_outcome(self, tid: usize) -> Result<Acquire, SyncError> {
        if tid >= self.threads() {
            Err(SyncError::InvalidHandle)
        } else if self.spinning_on(tid).is_none() {
            Err(SyncError::InvalidArgument)
        } else if self.ledger.available[self.spinning_on(tid).unwrap() as int] > 0 {
            Ok(Acquire::Granted)
        } else {
            Ok(Acquire::Spin)
        }
    }

    /// The class after that poll: the thread holds the mutex and waits no
    /// longer if it was free, and nothing has changed if not.
    pub open spec fn polled(self, tid: usize) -> ClassView {
        match self.poll_outcome(tid) {
            Ok(Acquire::Granted) => {
                let rid = self.spinning_on(tid).unwrap();
                ClassView {
                    ledger: self.ledger.admitted(tid as int, rid as int),
                    waiting: self.waiting.update(tid as int, None),
                    ..self.with_slot(rid, self.primitive(rid).acquired(tid))
                }
            },
            _ => self,
        }
    }

    /// The id that the next resource gets: the lowest free slot.
    pub open spec fn next_id(self) -> int {
        lowest_free(occupancy(self.slots))
    }

    /// The class after primitive `p` of `units` units was created.
    pub open spec fn created(self, p: PrimitiveView, units: usize) -> ClassView {
        let id = self.next_id();
        if id < self.slots.len() {
            ClassView {
                slots: self.slots.update(id, Some(p)),
                ledger: self.ledger.reset(id, units),
                ..self
            }
        } else {
            ClassView {
                slots: self.slots.push(Some(p)),
                ledger: self.ledger.with_resource(units),
                ..self
            }
        }
    }

    /// Some thread holds a unit of `rid` or waits for one.
    pub open spec fn in_use(self, rid: usize) -> bool {
        ||| self.ledger.available[rid as int] != self.ledger.total[rid as int]
        ||| exists|t: int| 0 <= t < self.threads() && #[trigger] self.waiting[t] == Some(rid)
    }

    /// What the removal of resource `rid` comes to.
    pub open spec fn remove_outcome(self, rid: usize) -> Result<(), SyncError> {
        if !self.occupied(rid) {
            Err(SyncError::InvalidHandle)
        } else if self.in_use(rid) {
            Err(SyncError::Busy)
        } else {
            Ok(())
        }
    }

    /// The class after that removal: the slot is empty and has no units.
    pub open spec fn removed(self, rid: usize) -> ClassView {
        match self.remove_outcome(rid) {
            Err(_) => self,
            Ok(_) => ClassView {
                slots: self.slots.update(rid as int, None),
                ledger: self.ledger.reset(rid as int, 0),
                ..self
            },
        }
    }

    /// The class after a thread joined the process.
    pub open spec fn with_thread(self) -> ClassView {
        ClassView {
            ledger: self.ledger.with_thread(),
            waiting: self.waiting.push(None),
            ..self
        }
    }
}

/// A request leaves the class well-formed, whatever it comes to.
pub proof fn lemma_acquired_wf(v: ClassView, tid: usize, rid: usize, detect: bool)
    requires
        v.wf(),
    ensures
        v.acquired(tid, rid, detect).wf(),
{
    let after = v.acquired(tid, rid, detect);
    match v.acquire_outcome(tid, rid, detect) {
        Err(_) => {},
        Ok(Acquire::Granted) => {
            lemma_granted_wf(v.ledger, tid as int, rid as int);
            assert(v.slot_ok(rid as int));
            assert forall|r: int| 0 <= r < after.resources() implies #[trigger] after.slot_ok(
                r,
            ) by {
                assert(v.slot_ok(r));
            }
            assert(after.waits_valid()) by {
                assert forall|t: int|
                    0 <= t < after.threads() && (#[trigger] after.waiting[t]).is_some() implies after.occupied(
                    after.waiting[t].unwrap(),
                ) by {
                    assert(v.waiting[t].is_some());
                }
            }
            assert(after.queues_complete()) by {
                assert forall|t: int|
                    0 <= t < after.threads() && (#[trigger] after.waiting[t]).is_some() && after.primitive(
                        after.waiting[t].unwrap(),
                    ).queues() implies listed(
                    after.primitive(after.waiting[t].unwrap()).waiters,
                    t,
                ) by {
                    let r = after.waiting[t].unwrap();
                    assert(v.waiting[t].is_some());
                    assert(v.occupied(r));
                    let old_waiters = v.primitive(r).waiters;
                    assert(listed(old_waiters, t));
                    let i = choose|i: int| 0 <= i < old_waiters.len() && #[trigger] old_waiters[i] == t;
                    assert(after.primitive(r).waiters[i] == t);
                }
            }
            assert(after.needs_match()) by {
                assert forall|t: int, r: int|
                    0 <= t < after.threads() && 0 <= r < after.resources() implies #[trigger] after.ledger.wanted[t][r]
                    == (if aims_at(after.waiting[t], r) {
                    1usize
                } else {
                    0usize
                }) by {
                    assert(v.ledger.wanted[t][r] == after.ledger.wanted[t][r]);
                }
            }
        },
        Ok(_) => {
            lemma_with_wanted_wf(
                v.ledger,
                tid as int,
                rid as int,
                v.ledger.wanted[tid as int][rid as int] + 1,
            );
            assert(v.slot_ok(rid as int));
            assert(v.ledger.wanted[tid as int].len() == v.resources());
            assert(v.ledger.wanted[tid as int][rid as int] == 0);
            let p = v.primitive(rid);
            assert(!p.waiters.contains(tid)) by {
                if p.waiters.contains(tid) {
                    let i = choose|i: int| 0 <= i < p.waiters.len() && p.waiters[i] == tid;
                    assert(v.waits_for(p.waiters[i], rid as int));
                }
            }
            assert forall|r: int| 0 <= r < after.resources() implies #[trigger] after.slot_ok(
                r,
            ) by {
                assert(v.slot_ok(r));
                if after.slots[r].is_some() {
                    let q = after.slots[r].unwrap();
                    assert forall|i: int| 0 <= i < q.waiters.len() implies after.waits_for(
                        #[trigger] q.waiters[i],
                        r,
                    ) by {
                        if r == rid && i == p.waiters.len() {
                        } else {
                            let w = v.slots[r].unwrap().waiters[i];
                            assert(v.waits_for(w, r));
                        }
                    }
                    if r == rid && p.queues() {
                        assert forall|i: int, j: int|
                            0 <= i < q.waiters.len() && 0 <= j < q.waiters.len() && i
                                != j implies q.waiters[i] != q.waiters[j] by {
                            if i < p.waiters.len() {
                                assert(p.waiters.contains(q.waiters[i]));
                            }
                            if j < p.waiters.len() {
                                assert(p.waiters.contains(q.waiters[j]));
                            }
                        }
                    }
                }
            }
            assert(after.waits_valid()) by {
                assert forall|t: int|
                    0 <= t < after.threads() && (#[trigger] after.waiting[t]).is_some() implies after.occupied(
                    after.waiting[t].unwrap(),
                ) by {
                    if t != tid {
                        assert(v.waiting[t].is_some());
                    }
                }
            }
            assert(after.queues_complete()) by {
                assert forall|t: int|
                    0 <= t < after.threads() && (#[trigger] after.waiting[t]).is_some() && after.primitive(
                        after.waiting[t].unwrap(),
                    ).queues() implies listed(
                    after.primitive(after.waiting[t].unwrap()).waiters,
                    t,
                ) by {
                    let r = after.waiting[t].unwrap();
                    if t == tid {
                        let q = after.primitive(r).waiters;
                        assert(q[p.waiters.len() as int] == tid);
                    } else {
                        assert(v.waiting[t].is_some());
                        assert(v.occupied(r));
                        let old_waiters = v.primitive(r).waiters;
                        assert(listed(old_waiters, t));
                        let i = choose|i: int|
                            0 <= i < old_waiters.len() && #[trigger] old_waiters[i] == t;
                        assert(after.primitive(r).waiters[i] == t);
                    }
                }
            }
            assert(after.needs_match()) by {
                assert forall|t: int, r: int|
                    0 <= t < after.threads() && 0 <= r < after.resources() implies #[trigger] after.ledger.wanted[t][r]
                    == (if aims_at(after.waiting[t], r) {
                    1usize
                } else {
                    0usize
                }) by {
                    assert(v.ledger.wanted[t][r] == (if aims_at(v.waiting[t], r) {
                        1usize
                    } else {
                        0usize
                    }));
                    assert(v.ledger.wanted[t].len() == v.resources());
                }
            }
        },
    }
}

/// A release leaves the class well-formed, whatever it comes to.
pub proof fn lemma_released_wf(v: ClassView, tid: usize, rid: usize)
    requires
        v.wf(),
    ensures
        v.released(tid, rid).wf(),
        v.release_outcome(tid, rid).is_ok() && v.release_outcome(tid, rid).unwrap().is_some() ==> {
            let w = v.release_outcome(tid, rid).unwrap().unwrap();
            &&& w < v.threads()
            &&& v.waiting[w as int] == Some(rid)
            &&& v.primitive(rid).queues()
        },
{
    let after = v.released(tid, rid);
    let t0 = tid as int;
    let r0 = rid as int;
    match v.release_outcome(tid, rid) {
        Err(_) => {},
        Ok(None) => {
            assert(v.ledger.held[t0].len() == v.resources());
            lemma_freed_wf(v.ledger, t0, r0);
            lemma_held_bounded(v.ledger, t0, r0);
            assert(v.slot_ok(r0));
            assert forall|r: int| 0 <= r < after.resources() implies #[trigger] after.slot_ok(
                r,
            ) by {
                assert(v.slot_ok(r));
            }
            assert(after.waits_valid()) by {
                assert forall|t: int|
                    0 <= t < after.threads() && (#[trigger] after.waiting[t]).is_some() implies after.occupied(
                    after.waiting[t].unwrap(),
                ) by {
                    assert(v.waiting[t].is_some());
                }
            }
            assert(after.queues_complete()) by {
                assert forall|t: int|
                    0 <= t < after.threads() && (#[trigger] after.waiting[t]).is_some() && after.primitive(
                        after.waiting[t].unwrap(),
                    ).queues() implies listed(
                    after.primitive(after.waiting[t].unwrap()).waiters,
                    t,
                ) by {
                    let r = after.waiting[t].unwrap();
                    assert(v.waiting[t].is_some());
                    assert(v.occupied(r));
                    let old_waiters = v.primitive(r).waiters;
                    assert(listed(old_waiters, t));
                    let i = choose|i: int| 0 <= i < old_waiters.len() && #[trigger] old_waiters[i] == t;
                    assert(after.primitive(r).waiters[i] == t);
                }
            }
            assert(after.needs_match()) by {
                assert forall|t: int, r: int|
                    0 <= t < after.threads() && 0 <= r < after.resources() implies #[trigger] after.ledger.wanted[t][r]
                    == (if aims_at(after.waiting[t], r) {
                    1usize
                } else {
                    0usize
                }) by {
                    assert(v.ledger.wanted[t][r] == after.ledger.wanted[t][r]);
                }
            }
        },
        Ok(Some(w)) => {
            let p = v.primitive(rid);
            let w0 = w as int;
            assert(v.slot_ok(r0));
            assert(v.waits_for(p.waiters[0], r0));
            assert(v.ledger.wanted[w0].len() == v.resources());
            assert(v.ledger.wanted[w0][r0] == 1);
            assert(v.ledger.held[t0].len() == v.resources());
            assert(v.ledger.held[w0].len() == v.resources());
            let l1 = v.ledger.freed(t0, r0);
            lemma_freed_wf(v.ledger, t0, r0);
            assert(l1.held[w0].len() == v.resources());
            let l2 = l1.granted(w0, r0);
            lemma_granted_wf(l1, w0, r0);
            lemma_with_wanted_wf(l2, w0, r0, l2.wanted[w0][r0] - 1);
            assert(after.ledger.available =~= v.ledger.available);
            assert forall|r: int| 0 <= r < after.resources() implies #[trigger] after.slot_ok(
                r,
            ) by {
                assert(v.slot_ok(r));
                if after.slots[r].is_some() {
                    let q = after.slots[r].unwrap();
                    let before = v.slots[r].unwrap();
                    assert forall|i: int| 0 <= i < q.waiters.len() implies after.waits_for(
                        #[trigger] q.waiters[i],
                        r,
                    ) by {
                        if r == r0 {
                            assert(q.waiters[i] == before.waiters[i + 1]);
                            assert(v.waits_for(before.waiters[i + 1], r));
                        } else {
                            assert(v.waits_for(before.waiters[i], r));
                        }
                    }
                }
            }
            assert(after.waits_valid()) by {
                assert forall|t: int|
                    0 <= t < after.threads() && (#[trigger] after.waiting[t]).is_some() implies after.occupied(
                    after.waiting[t].unwrap(),
                ) by {
                    assert(v.waiting[t].is_some());
                }
            }
            assert(after.queues_complete()) by {
                assert forall|t: int|
                    0 <= t < after.threads() && (#[trigger] after.waiting[t]).is_some() && after.primitive(
                        after.waiting[t].unwrap(),
                    ).queues() implies listed(
                    after.primitive(after.waiting[t].unwrap()).waiters,
                    t,
                ) by {
                    let r = after.waiting[t].unwrap();
                    assert(v.waiting[t].is_some());
                    assert(v.occupied(r));
                    let old_waiters = v.primitive(r).waiters;
                    assert(listed(old_waiters, t));
                    let i = choose|i: int|
                        0 <= i < old_waiters.len() && #[trigger] old_waiters[i] == t;
                    if r == rid {
                        assert(i != 0);
                        assert(after.primitive(r).waiters[i - 1] == t);
                    } else {
                        assert(after.primitive(r).waiters[i] == t);
                    }
                }
            }
            assert(after.needs_match()) by {
                assert forall|t: int, r: int|
                    0 <= t < after.threads() && 0 <= r < after.resources() implies #[trigger] after.ledger.wanted[t][r]
                    == (if aims_at(after.waiting[t], r) {
                    1usize
                } else {
                    0usize
                }) by {
                    assert(v.ledger.wanted[t][r] == (if aims_at(v.waiting[t], r) {
                        1usize
                    } else {
                        0usize
                    }));
                    assert(v.ledger.wanted[t].len() == v.resources());
                }
            }
        },
    }
}

/// A poll leaves the class well-formed, whatever it comes to.
pub proof fn lemma_polled_wf(v: ClassView, tid: usize)
    requires
        v.wf(),
    ensures
        v.polled(tid).wf(),
{
    let after = v.polled(tid);
    match v.poll_outcome(tid) {
        Ok(Acquire::Granted) => {
            let rid = v.spinning_on(tid).unwrap();
            let t0 = tid as int;
            let r0 = rid as int;
            assert(v.waiting[t0].is_some());
            assert(v.occupied(rid));
            assert(v.slot_ok(r0));
            assert(v.ledger.wanted[t0].len() == v.resources());
            assert(v.ledger.wanted[t0][r0] == 1);
            let l1 = v.ledger.granted(t0, r0);
            lemma_granted_wf(v.ledger, t0, r0);
            lemma_with_wanted_wf(l1, t0, r0, l1.wanted[t0][r0] - 1);
            assert forall|r: int| 0 <= r < after.resources() implies #[trigger] after.slot_ok(
                r,
            ) by {
                assert(v.slot_ok(r));
                if after.slots[r].is_some() {
                    let q = after.slots[r].unwrap();
                    assert forall|i: int| 0 <= i < q.waiters.len() implies after.waits_for(
                        #[trigger] q.waiters[i],
                        r,
                    ) by {
                        assert(v.waits_for(v.slots[r].unwrap().waiters[i], r));
                    }
                }
            }
            assert(after.waits_valid()) by {
                assert forall|t: int|
                    0 <= t < after.threads() && (#[trigger] after.waiting[t]).is_some() implies after.occupied(
                    after.waiting[t].unwrap(),
                ) by {
                    assert(v.waiting[t].is_some());
                }
            }
            assert(after.queues_complete()) by {
                assert forall|t: int|
                    0 <= t < after.threads() && (#[trigger] after.waiting[t]).is_some() && after.primitive(
                        after.waiting[t].unwrap(),
                    ).queues() implies listed(
                    after.primitive(after.waiting[t].unwrap()).waiters,
                    t,
                ) by {
                    let r = after.waiting[t].unwrap();
                    assert(v.waiting[t].is_some());
                    assert(v.occupied(r));
                    let old_waiters = v.primitive(r).waiters;
                    assert(listed(old_waiters, t));
                    let i = choose|i: int| 0 <= i < old_waiters.len() && #[trigger] old_waiters[i] == t;
                    assert(after.primitive(r).waiters[i] == t);
                }
            }
            assert(after.needs_match()) by {
                assert forall|t: int, r: int|
                    0 <= t < after.threads() && 0 <= r < after.resources() implies #[trigger] after.ledger.wanted[t][r]
                    == (if aims_at(after.waiting[t], r) {
                    1usize
                } else {
                    0usize
                }) by {
                    assert(v.ledger.wanted[t][r] == (if aims_at(v.waiting[t], r) {
                        1usize
                    } else {
                        0usize
                    }));
                    assert(v.ledger.wanted[t].len() == v.resources());
                }
            }
        },
        _ => {},
    }
}

/// A fresh primitive whose free units are all its units leaves the class
/// well-formed, in a reused slot as in a new one.
pub proof fn lemma_created_wf(v: ClassView, p: PrimitiveView, units: usize)
    requires
        v.wf(),
        p.wf(),
        p.free == units,
        p.waiters.len() == 0,
        p.kind != Kind::Semaphore ==> units == 1,
    ensures
        v.created(p, units).wf(),
        0 <= v.next_id() <= v.resources(),
        v.next_id() < v.resources() ==> v.slots[v.next_id()].is_none(),
{
    let after = v.created(p, units);
    let id = v.next_id();
    crate::table::lemma_lowest_free(occupancy(v.slots));
    if id < v.slots.len() {
        assert(!occupancy(v.slots)[id]);
        lemma_reset_wf(v.ledger, id, units);
    } else {
        lemma_with_resource_wf(v.ledger, units);
    }
    assert forall|r: int| 0 <= r < after.resources() implies #[trigger] after.slot_ok(r) by {
        if r != id {
            assert(v.slot_ok(r));
        }
    }
    assert(after.waits_valid()) by {
        assert forall|t: int|
            0 <= t < after.threads() && (#[trigger] after.waiting[t]).is_some() implies after.occupied(
            after.waiting[t].unwrap(),
        ) by {
            assert(v.waiting[t].is_some());
        }
    }
    assert(after.queues_complete()) by {
        assert forall|t: int|
            0 <= t < after.threads() && (#[trigger] after.waiting[t]).is_some() && after.primitive(
                after.waiting[t].unwrap(),
            ).queues() implies listed(
            after.primitive(after.waiting[t].unwrap()).waiters,
            t,
        ) by {
            let r = after.waiting[t].unwrap();
            assert(v.waiting[t].is_some());
            assert(v.occupied(r));
            let old_waiters = v.primitive(r).waiters;
            assert(listed(old_waiters, t));
            let i = choose|i: int| 0 <= i < old_waiters.len() && #[trigger] old_waiters[i] == t;
            assert(after.primitive(r).waiters[i] == t);
        }
    }
    assert(after.needs_match()) by {
        assert forall|t: int, r: int|
            0 <= t < after.threads() && 0 <= r < after.resources() implies #[trigger] after.ledger.wanted[t][r]
            == (if aims_at(after.waiting[t], r) {
            1usize
        } else {
            0usize
        }) by {
            assert(v.ledger.wanted[t].len() == v.resources());
            if v.waiting[t].is_some() {
                assert(v.occupied(v.waiting[t].unwrap()));
            }
            if r != id {
                assert(v.ledger.wanted[t][r] == (if aims_at(v.waiting[t], r) {
                    1usize
                } else {
                    0usize
                }));
            }
        }
    }
}

/// A removal leaves the class well-formed, whatever it comes to.
pub proof fn lemma_removed_wf(v: ClassView, rid: usize)
    requires
        v.wf(),
    ensures
        v.removed(rid).wf(),
{
    let after = v.removed(rid);
    if v.remove_outcome(rid).is_ok() {
        lemma_reset_wf(v.ledger, rid as int, 0);
        assert forall|r: int| 0 <= r < after.resources() implies #[trigger] after.slot_ok(r) by {
            assert(v.slot_ok(r));
        }
        assert(after.waits_valid()) by {
            assert forall|t: int|
                0 <= t < after.threads() && (#[trigger] after.waiting[t]).is_some() implies after.occupied(
                after.waiting[t].unwrap(),
            ) by {
                assert(v.waiting[t].is_some());
                assert(v.waiting[t] != Some(rid));
            }
        }
        assert(after.queues_complete()) by {
            assert forall|t: int|
                0 <= t < after.threads() && (#[trigger] after.waiting[t]).is_some() && after.primitive(
                    after.waiting[t].unwrap(),
                ).queues() implies listed(
                after.primitive(after.waiting[t].unwrap()).waiters,
                t,
            ) by {
                let r = after.waiting[t].unwrap();
                assert(v.waiting[t].is_some());
                assert(v.waiting[t] != Some(rid));
                assert(v.occupied(r));
                let old_waiters = v.primitive(r).waiters;
                assert(listed(old_waiters, t));
                let i = choose|i: int| 0 <= i < old_waiters.len() && #[trigger] old_waiters[i] == t;
                assert(after.primitive(r).waiters[i] == t);
            }
        }
        assert(after.needs_match()) by {
            assert forall|t: int, r: int|
                0 <= t < after.threads() && 0 <= r < after.resources() implies #[trigger] after.ledger.wanted[t][r]
                == (if aims_at(after.waiting[t], r) {
                1usize
            } else {
                0usize
            }) by {
                assert(v.ledger.wanted[t].len() == v.resources());
                assert(v.waiting[t] != Some(rid));
                if r != rid {
                    assert(v.ledger.wanted[t][r] == (if aims_at(v.waiting[t], r) {
                        1usize
                    } else {
                        0usize
                    }));
                }
            }
        }
    }
}

/// A new thread leaves the class well-formed.
pub proof fn lemma_class_with_thread_wf(v: ClassView)
    requires
        v.wf(),
    ensures
        v.with_thread().wf(),
{
    let after = v.with_thread();
    lemma_with_thread_wf(v.ledger);
    assert forall|r: int| 0 <= r < after.resources() implies #[trigger] after.slot_ok(r) by {
        assert(v.slot_ok(r));
        if after.slots[r].is_some() {
            let q = after.slots[r].unwrap();
            assert forall|i: int| 0 <= i < q.waiters.len() implies after.waits_for(
                #[trigger] q.waiters[i],
                r,
            ) by {
                assert(v.waits_for(q.waiters[i], r));
            }
        }
    }
    assert(after.waits_valid()) by {
        assert forall|t: int|
            0 <= t < after.threads() && (#[trigger] after.waiting[t]).is_some() implies after.occupied(
            after.waiting[t].unwrap(),
        ) by {
            assert(t < v.threads());
            assert(v.waiting[t].is_some());
        }
    }
    assert(after.queues_complete()) by {
        assert forall|t: int|
            0 <= t < after.threads() && (#[trigger] after.waiting[t]).is_some() && after.primitive(
                after.waiting[t].unwrap(),
            ).queues() implies listed(
            after.primitive(after.waiting[t].unwrap()).waiters,
            t,
        ) by {
            assert(t < v.threads());
            let r = after.waiting[t].unwrap();
            assert(v.waiting[t].is_some());
            assert(v.occupied(r));
            let old_waiters = v.primitive(r).waiters;
            assert(listed(old_waiters, t));
            let i = choose|i: int| 0 <= i < old_waiters.len() && #[trigger] old_waiters[i] == t;
            assert(after.primitive(r).waiters[i] == t);
        }
    }
    assert(after.needs_match()) by {
        assert forall|t: int, r: int|
            0 <= t < after.threads() && 0 <= r < after.resources() implies #[trigger] after.ledger.wanted[t][r]
            == (if aims_at(after.waiting[t], r) {
            1usize
        } else {
            0usize
        }) by {
            if t < v.threads() {
                assert(v.ledger.wanted[t][r] == (if aims_at(v.waiting[t], r) {
                    1usize
                } else {
                    0usize
                }));
            }
        }
    }
}

/// At every moment the free units of a resource and the units that the
/// threads hold of it add up to the units that exist: one for a mutex; for
/// a semaphore the count that it was created with and what threads that
/// held none have put in since.
pub proof fn lemma_units_conserved(v: ClassView, rid: usize)
    requires
        v.wf(),
        rid < v.resources(),
    ensures
        v.ledger.available[rid as int] + crate::ledger::sums::column_sum(v.ledger.held, rid as int)
            == v.ledger.total[rid as int],
        v.occupied(rid) && v.primitive(rid).kind != Kind::Semaphore ==> v.ledger.total[rid as int]
            == 1,
{
    assert(v.slot_ok(rid as int));
}

/// No two threads hold the same mutex: of two threads that the ledger
/// records as holders of mutex `rid`, each is the other.
pub proof fn lemma_mutual_exclusion(v: ClassView, rid: usize, t1: usize, t2: usize)
    requires
        v.wf(),
        v.occupied(rid),
        v.primitive(rid).kind != Kind::Semaphore,
        t1 < v.threads(),
        t2 < v.threads(),
        v.ledger.held[t1 as int][rid as int] >= 1,
        v.ledger.held[t2 as int][rid as int] >= 1,
    ensures
        t1 == t2,
        v.ledger.held[t1 as int][rid as int] == 1,
        v.ledger.available[rid as int] == 0,
{
    assert(v.slot_ok(rid as int));
    lemma_held_bounded(v.ledger, t1 as int, rid as int);
    if t1 != t2 {
        lemma_two_rows_bounded(v.ledger.held, t1 as int, t2 as int, rid as int);
    }
}

/// Avoidance. With the safety check on, a thread is let wait only where
/// the state with its request is safe: there is still an order in which
/// every thread of the process can get what it waits for and finish.
pub proof fn lemma_admitted_wait_is_safe(v: ClassView, tid: usize, rid: usize)
    requires
        v.wf(),
        v.acquire_outcome(tid, rid, true).is_ok(),
        v.acquire_outcome(tid, rid, true).unwrap() != Acquire::Granted,
    ensures
        v.acquired(tid, rid, true).ledger.safe(),
        v.acquired(tid, rid, true).waiting[tid as int] == Some(rid),
{
}

/// In a safe state not every thread waits in vain: some thread waits for
/// nothing, or waits for a resource of which a unit is free. So a request
/// that the safety check lets through never closes a circle of threads that
/// wait for each other.
pub proof fn lemma_safe_state_can_move(v: ClassView)
    requires
        v.wf(),
        v.ledger.safe(),
        v.threads() > 0,
    ensures
        exists|t: int|
            0 <= t < v.threads() && ((#[trigger] v.waiting[t]).is_none()
                || v.ledger.available[v.waiting[t].unwrap() as int] > 0),
{
    let order = choose|order: Seq<int>| v.ledger.safe_sequence(order);
    let t = order[0];
    assert(v.ledger.can_finish(t, order.take(0)));
    assert(order.take(0) =~= Seq::<int>::empty());
    if v.waiting[t].is_some() {
        let r = v.waiting[t].unwrap() as int;
        assert(v.occupied(v.waiting[t].unwrap()));
        assert(v.ledger.wanted[t][r] == 1);
        assert(v.ledger.wanted[t][r] <= v.ledger.work_after(Seq::<int>::empty(), r));
    }
}

/// The units of a resource. No request, poll or release changes how many
/// units a resource has, but one: a semaphore gains a unit when a thread
/// that holds none of it raises it. A mutex has one unit throughout, and a
/// semaphore that only its holders raise keeps the count that it was
/// created with.
pub proof fn lemma_units_in_existence(v: ClassView, tid: usize, rid: usize, detect: bool)
    requires
        v.wf(),
    ensures
        v.acquired(tid, rid, detect).ledger.total == v.ledger.total,
        v.polled(tid).ledger.total == v.ledger.total,
        v.released(tid, rid).ledger.total == (if v.release_outcome(tid, rid).is_ok()
            && v.ledger.held[tid as int][rid as int] == 0 {
            v.ledger.total.update(rid as int, (v.ledger.total[rid as int] + 1) as usize)
        } else {
            v.ledger.total
        }),
        v.release_outcome(tid, rid).is_ok() && v.ledger.held[tid as int][rid as int] == 0
            ==> v.primitive(rid).kind == Kind::Semaphore,
{
}

/// Wake and ledger move together. After a release that wakes a waiter, the
/// waiter awaits one unit less and holds one unit more of the resource, and
/// the unit was never free: the free units are as before. The releasing
/// thread holds one unit less; where it held none, the unit has come into
/// being with the release. The woken thread was the head of the wait queue
/// and is no longer in it.
pub proof fn lemma_wake_moves_unit(v: ClassView, tid: usize, rid: usize)
    requires
        v.wf(),
        v.release_outcome(tid, rid).is_ok(),
        v.release_outcome(tid, rid).unwrap().is_some(),
    ensures
        ({
            let w = v.release_outcome(tid, rid).unwrap().unwrap() as int;
            let t = tid as int;
            let r = rid as int;
            let after = v.released(tid, rid);
            &&& 0 <= w < v.threads()
            &&& v.primitive(rid).waiters[0] == w
            &&& after.primitive(rid).waiters == behind_head(v.primitive(rid).waiters)
            &&& !after.primitive(rid).waiters.contains(w as usize)
            &&& v.ledger.wanted[w][r] == 1
            &&& after.ledger.wanted[w][r] == 0
            &&& after.waiting[w].is_none()
            &&& after.ledger.available[r] == v.ledger.available[r]
            &&& after.ledger.available[r] == 0
            &&& w != t ==> after.ledger.held[w][r] == v.ledger.held[w][r] + 1
            &&& v.ledger.held[t][r] > 0 ==> {
                &&& after.ledger.total[r] == v.ledger.total[r]
                &&& w != t ==> after.ledger.held[t][r] == v.ledger.held[t][r] - 1
                &&& w == t ==> after.ledger.held[t][r] == v.ledger.held[t][r]
            }
            &&& v.ledger.held[t][r] == 0 ==> {
                &&& after.ledger.total[r] == v.ledger.total[r] + 1
                &&& w != t ==> after.ledger.held[t][r] == 0
                &&& w == t ==> after.ledger.held[t][r] == 1
            }
        }),
{
    let w = v.release_outcome(tid, rid).unwrap().unwrap() as int;
    let t = tid as int;
    let r = rid as int;
    let after = v.released(tid, rid);
    let p = v.primitive(rid);
    lemma_released_wf(v, tid, rid);
    assert(v.slot_ok(r));
    assert(v.waits_for(p.waiters[0], r));
    assert(v.ledger.wanted[w].len() == v.resources());
    assert(v.ledger.held[w].len() == v.resources());
    assert(v.ledger.held[t].len() == v.resources());
    lemma_freed_wf(v.ledger, t, r);
    assert(v.ledger.freed(t, r).held[w].len() == v.resources());
    lemma_granted_wf(v.ledger.freed(t, r), w, r);
    if after.primitive(rid).waiters.contains(w as usize) {
        let q = after.primitive(rid).waiters;
        let i = choose|i: int| 0 <= i < q.len() && q[i] == w;
        assert(p.waiters[i + 1] == p.waiters[0]);
    }
}

/// Slot reuse. A resource that is created and removed again leaves its id
/// to the resource that is created next, whatever else the table holds.
pub proof fn lemma_removed_id_is_reused(v: ClassView, p: PrimitiveView, units: usize)
    requires
        v.wf(),
        p.wf(),
        p.free == units,
        p.waiters.len() == 0,
        p.kind != Kind::Semaphore ==> units == 1,
        v.next_id() <= usize::MAX,
    ensures
        ({
            let id = v.next_id() as usize;
            let created = v.created(p, units);
            &&& created.occupied(id)
            &&& created.remove_outcome(id).is_ok()
            &&& created.removed(id).next_id() == id
        }),
{
    let id = v.next_id() as usize;
    let created = v.created(p, units);
    lemma_created_wf(v, p, units);
    crate::table::lemma_lowest_free(occupancy(v.slots));
    assert(!created.in_use(id)) by {
        if exists|t: int| 0 <= t < created.threads() && #[trigger] created.waiting[t] == Some(id) {
            let t = choose|t: int|
                0 <= t < created.threads() && #[trigger] created.waiting[t] == Some(id);
            assert(v.waiting[t].is_some());
            assert(v.occupied(id));
            assert(occupancy(v.slots)[id as int]);
        }
    }
    let removed = created.removed(id);
    crate::table::lemma_lowest_free(occupancy(removed.slots));
    assert(crate::table::is_lowest_free(occupancy(removed.slots), id as int)) by {
        assert forall|j: int| 0 <= j < id implies occupancy(removed.slots)[j] by {
            assert(occupancy(v.slots)[j]);
        }
    }
    crate::table::lemma_lowest_free_unique(
        occupancy(removed.slots),
        id as int,
        lowest_free(occupancy(removed.slots)),
    );
}

/// Lets the primitive in slot `rid` take a unit for `tid`.
fn slot_acquire(slots: &mut Vec<Option<Primitive>>, rid: usize, tid: usize) -> (outcome: Acquire)
    requires
        rid < old(slots).len(),
        old(slots)[rid as int].is_some(),
        old(slots)[rid as int].unwrap().wf(),
    ensures
        outcome == old(slots)[rid as int].unwrap()@.acquire_outcome(),
        slot_views(final(slots)@) == slot_views(old(slots)@).update(
            rid as int,
            Some(old(slots)[rid as int].unwrap()@.acquired(tid)),
        ),
{
    let outcome = match &mut slots[rid] {
        Some(p) => p.acquire(tid),
        None => Acquire::Spin,
    };
    proof {
        assert(slot_views(slots@) =~= slot_views(old(slots)@).update(
            rid as int,
            Some(old(slots)[rid as int].unwrap()@.acquired(tid)),
        ));
    }
    outcome
}

/// Lets the primitive in slot `rid` release a unit.
fn slot_release(slots: &mut Vec<Option<Primitive>>, rid: usize) -> (woken: Option<usize>)
    requires
        rid < old(slots).len(),
        old(slots)[rid as int].is_some(),
        old(slots)[rid as int].unwrap().wf(),
        old(slots)[rid as int].unwrap()@.waiters.len() > 0 || old(slots)[rid as int].unwrap()@.free
            < usize::MAX,
    ensures
        woken == head(old(slots)[rid as int].unwrap()@.waiters),
        slot_views(final(slots)@) == slot_views(old(slots)@).update(
            rid as int,
            Some(old(slots)[rid as int].unwrap()@.released()),
        ),
{
    let woken = match &mut slots[rid] {
        Some(p) => p.release(),
        None => None,
    };
    proof {
        assert(slot_views(slots@) =~= slot_views(old(slots)@).update(
            rid as int,
            Some(old(slots)[rid as int].unwrap()@.released()),
        ));
    }
    woken
}

impl ResourceClass {
    /// The ledger, the primitives and the waiting record agree.
    pub open spec fn wf(&self) -> bool {
        self@.wf()
    }

    /// A class without resources or threads.
    pub fn new() -> (class: ResourceClass)
        ensures
            class.wf(),
            class@ == ClassView::empty(),
    {
        let class = ResourceClass { slots: Vec::new(), ledger: Ledger::new(), waiting: Vec::new() };
        assert(class@.slots =~= Seq::empty());
        class
    }

    /// Number of threads of the process.
    pub fn thread_count(&self) -> (n: usize)
        ensures
            n == self@.threads(),
    {
        self.waiting.len()
    }

    /// Number of slots, free ones included.
    pub fn resource_count(&self) -> (n: usize)
        ensures
            n == self@.resources(),
    {
        self.slots.len()
    }

    /// The id that the next resource gets: the lowest free slot.
    pub fn next_id(&self) -> (id: usize)
        ensures
            id == self@.next_id(),
    {
        proof {
            assert(occupancy(self.slots@) =~= occupancy(self@.slots));
        }
        crate::table::find_free(&self.slots)
    }

    /// Gives a new thread of the process its rows, and returns its id.
    pub fn add_thread(&mut self) -> (tid: usize)
        requires
            old(self).wf(),
        ensures
            final(self).wf(),
            final(self)@ == old(self)@.with_thread(),
            tid == old(self)@.threads(),
    {
        let tid = self.waiting.len();
        self.ledger.add_thread();
        self.waiting.push(None);
        proof {
            lemma_class_with_thread_wf(old(self)@);
        }
        tid
    }

    /// Puts `primitive` of `units` units, all free, into the lowest free
    /// slot, and returns the slot.
    fn install(&mut self, primitive: Primitive, units: usize) -> (id: usize)
        requires
            old(self).wf(),
            primitive.wf(),
            primitive@.free == units,
            primitive@.waiters.len() == 0,
            primitive@.kind != Kind::Semaphore ==> units == 1,
        ensures
            final(self).wf(),
            id == old(self)@.next_id(),
            final(self)@ == old(self)@.created(primitive@, units),
    {
        let id = crate::table::find_free(&self.slots);
        proof {
            lemma_created_wf(old(self)@, primitive@, units);
            assert(occupancy(self.slots@) =~= occupancy(self@.slots));
        }
        if id < self.slots.len() {
            self.slots[id] = Some(primitive);
            self.ledger.reset_resource(id, units);
        } else {
            self.slots.push(Some(primitive));
            self.ledger.add_resource(units);
        }
        proof {
            assert(self@.slots =~= old(self)@.created(primitive@, units).slots);
        }
        id
    }

    /// Creates a mutex, of the queueing kind if `blocking` and of the
    /// polling kind if not, in the lowest free slot, and returns its id.
    pub fn create_mutex(&mut self, blocking: bool) -> (id: usize)
        requires
            old(self).wf(),
        ensures
            final(self).wf(),
            id == old(self)@.next_id(),
            final(self)@ == old(self)@.created(
                PrimitiveView {
                    kind: if blocking {
                        Kind::BlockingMutex
                    } else {
                        Kind::SpinMutex
                    },
                    free: 1,
                    waiters: Seq::empty(),
                },
                1,
            ),
    {
        let primitive = Primitive::Mutex(crate::sync::mutex::Mutex::new(blocking));
        self.install(primitive, 1)
    }

    /// Creates a semaphore of `res_count` units in the lowest free slot, and
    /// returns its id.
    pub fn create_semaphore(&mut self, res_count: usize) -> (id: usize)
        requires
            old(self).wf(),
        ensures
            final(self).wf(),
            id == old(self)@.next_id(),
            final(self)@ == old(self)@.created(
                PrimitiveView {
                    kind: Kind::Semaphore,
                    free: res_count as nat,
                    waiters: Seq::empty(),
                },
                res_count,
            ),
    {
        let primitive = Primitive::Semaphore(crate::sync::semaphore::Semaphore::new(res_count));
        self.install(primitive, res_count)
    }

    /// Asks for one unit of `rid` for thread `tid`.
    ///
    /// A free unit is granted at once. Otherwise the thread is recorded as
    /// waiting, and if `detect` is set and the state with that record is not
    /// safe, the record is taken back and the request refused. If the
    /// request stands, the thread joins the primitive's queue and has to
    /// block, or has to poll where the primitive has no queue.
    pub fn acquire(&mut self, tid: usize, rid: usize, detect: bool) -> (outcome: Result<
        Acquire,
        SyncError,
    >)
        requires
            old(self).wf(),
        ensures
            final(self).wf(),
            outcome == old(self)@.acquire_outcome(tid, rid, detect),
            final(self)@ == old(self)@.acquired(tid, rid, detect),
    {
        if tid >= self.waiting.len() || rid >= self.slots.len() {
            return Err(SyncError::InvalidHandle);
        }
        if self.slots[rid].is_none() {
            return Err(SyncError::InvalidHandle);
        }
        if self.waiting[tid].is_some() {
            return Err(SyncError::InvalidArgument);
        }
        proof {
            lemma_acquired_wf(old(self)@, tid, rid, detect);
            assert(old(self)@.slot_ok(rid as int));
            assert(old(self)@.ledger.wanted[tid as int].len() == old(self)@.resources());
            assert(old(self)@.ledger.wanted[tid as int][rid as int] == 0);
        }
        if self.ledger.available[rid] > 0 {
            let granted = slot_acquire(&mut self.slots, rid, tid);
            self.ledger.grant(tid, rid);
            Ok(granted)
        } else {
            self.ledger.request(tid, rid);
            if detect && !self.ledger.is_safe() {
                self.ledger.withdraw(tid, rid);
                proof {
                    let back = self.ledger@;
                    let v = old(self)@.ledger;
                    assert(back.wanted[tid as int] =~= v.wanted[tid as int]);
                    assert(back.wanted =~= v.wanted);
                }
                return Err(SyncError::WouldDeadlock);
            }
            self.waiting[tid] = Some(rid);
            let queued = slot_acquire(&mut self.slots, rid, tid);
            Ok(queued)
        }
    }

    /// Gives one unit of `rid` back for thread `tid`, and returns the thread
    /// that has to be made ready, if the unit went to a waiter.
    ///
    /// The unit leaves `tid` in the ledger. A thread that holds no unit can
    /// still raise a semaphore, which then gains a unit; a mutex is
    /// released by its holder only. If threads wait in the primitive's
    /// queue, the earliest leaves the queue, and in the same step the
    /// ledger moves the unit on to it and drops its need; the unit is never
    /// free in between. Without waiters the unit is free.
    pub fn release(&mut self, tid: usize, rid: usize) -> (outcome: Result<Option<usize>, SyncError>)
        requires
            old(self).wf(),
        ensures
            final(self).wf(),
            outcome == old(self)@.release_outcome(tid, rid),
            final(self)@ == old(self)@.released(tid, rid),
    {
        if tid >= self.waiting.len() || rid >= self.slots.len() {
            return Err(SyncError::InvalidHandle);
        }
        if self.slots[rid].is_none() {
            return Err(SyncError::InvalidHandle);
        }
        proof {
            assert(old(self)@.ledger.held[tid as int].len() == old(self)@.resources());
        }
        let holds: bool = self.ledger.allocation[tid][rid] > 0;
        if !holds {
            let raises: bool = match &self.slots[rid] {
                Some(Primitive::Semaphore(_)) => true,
                _ => false,
            };
            if !raises || self.ledger.total[rid] == usize::MAX {
                return Err(SyncError::NotHeld);
            }
        }
        proof {
            lemma_released_wf(old(self)@, tid, rid);
            assert(old(self)@.slot_ok(rid as int));
            lemma_freed_wf(old(self)@.ledger, tid as int, rid as int);
        }
        let woken = slot_release(&mut self.slots, rid);
        if holds {
            self.ledger.give_back(tid, rid);
        } else {
            self.ledger.produce(rid);
        }
        match woken {
            Some(w) => {
                proof {
                    let p = old(self)@.primitive(rid);
                    assert(old(self)@.waits_for(p.waiters[0], rid as int));
                    assert(old(self)@.ledger.wanted[w as int].len() == old(self)@.resources());
                    assert(old(self)@.ledger.wanted[w as int][rid as int] == 1);
                    assert(self.ledger@.held[w as int].len() == old(self)@.resources());
                }
                self.ledger.grant(w, rid);
                self.ledger.withdraw(w, rid);
                self.waiting[w] = None;
            },
            None => {},
        }
        Ok(woken)
    }

    /// Polls again for thread `tid`, which waits for a polling mutex: takes
    /// the mutex if it is free by now, and changes nothing if it is not.
    pub fn poll(&mut self, tid: usize) -> (outcome: Result<Acquire, SyncError>)
        requires
            old(self).wf(),
        ensures
            final(self).wf(),
            outcome == old(self)@.poll_outcome(tid),
            final(self)@ == old(self)@.polled(tid),
    {
        if tid >= self.waiting.len() {
            return Err(SyncError::InvalidHandle);
        }
        let rid = match self.spinning_on(tid) {
            Some(rid) => rid,
            None => {
                return Err(SyncError::InvalidArgument);
            },
        };
        proof {
            lemma_polled_wf(old(self)@, tid);
            assert(old(self)@.waiting[tid as int].is_some());
            assert(old(self)@.occupied(rid));
            assert(old(self)@.slot_ok(rid as int));
            assert(old(self)@.ledger.wanted[tid as int].len() == old(self)@.resources());
            assert(old(self)@.ledger.wanted[tid as int][rid as int] == 1);
        }
        if self.ledger.available[rid] > 0 {
            let granted = slot_acquire(&mut self.slots, rid, tid);
            self.ledger.grant(tid, rid);
            proof {
                assert(self.ledger@.wanted[tid as int].len() == old(self)@.resources());
            }
            self.ledger.withdraw(tid, rid);
            self.waiting[tid] = None;
            Ok(granted)
        } else {
            Ok(Acquire::Spin)
        }
    }

    /// The polling mutex that thread `tid` waits for, if it waits for one.
    pub fn spinning_on(&self, tid: usize) -> (rid: Option<usize>)
        requires
            self.wf(),
        ensures
            rid == self@.spinning_on(tid),
    {
        if tid >= self.waiting.len() {
            return None;
        }
        match self.waiting[tid] {
            Some(rid) => {
                proof {
                    assert(self@.waiting[tid as int].is_some());
                    assert(self@.occupied(rid));
                }
                match &self.slots[rid] {
                    Some(Primitive::Mutex(crate::sync::mutex::Mutex::Spin(_))) => Some(rid),
                    _ => None,
                }
            },
            None => None,
        }
    }

    /// The resource of this class that thread `tid` waits for, if any.
    pub fn waiting_for(&self, tid: usize) -> (rid: Option<usize>)
        ensures
            rid == (if tid < self@.threads() {
                self@.waiting[tid as int]
            } else {
                None
            }),
    {
        if tid < self.waiting.len() {
            self.waiting[tid]
        } else {
            None
        }
    }

    /// Removes resource `rid` and frees its slot for the next resource.
    /// A resource that some thread holds or awaits stays.
    pub fn remove(&mut self, rid: usize) -> (outcome: Result<(), SyncError>)
        requires
            old(self).wf(),
        ensures
            final(self).wf(),
            outcome == old(self)@.remove_outcome(rid),
            final(self)@ == old(self)@.removed(rid),
    {
        if rid >= self.slots.len() {
            return Err(SyncError::InvalidHandle);
        }
        if self.slots[rid].is_none() {
            return Err(SyncError::InvalidHandle);
        }
        if self.ledger.available[rid] != self.ledger.total[rid] {
            return Err(SyncError::Busy);
        }
        let mut t: usize = 0;
        while t < self.waiting.len()
            invariant
                t <= self.waiting.len(),
                *self == *old(self),
                self.wf(),
                self@.occupied(rid),
                self@.ledger.available[rid as int] == self@.ledger.total[rid as int],
                forall|u: int| 0 <= u < t ==> self.waiting[u] != Some(rid),
            decreases self.waiting.len() - t,
        {
            if self.waiting[t] == Some(rid) {
                proof {
                    assert(self@.waiting[t as int] == Some(rid));
                }
                return Err(SyncError::Busy);
            }
            t = t + 1;
        }
        proof {
            lemma_removed_wf(old(self)@, rid);
        }
        self.slots[rid] = None;
        self.ledger.reset_resource(rid, 0);
        proof {
            assert(self@.slots =~= old(self)@.removed(rid).slots);
        }
        Ok(())
    }
}

} // verus!
