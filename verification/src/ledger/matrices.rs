//! The three matrices of one resource class and the single-entry moves on
//! them. Every move keeps the matrices rectangular and the units of each
//! resource conserved.
use crate::ledger::sums::{
    column_sum, lemma_column_sum_agrees, lemma_column_sum_entry, lemma_column_sum_nonnegative,
    lemma_column_sum_zero, lemma_row_bounded, rectangular,
};
use vstd::prelude::*;

verus! {

/// Free, held and awaited units of every resource of one class, by thread.
///
/// Row `t` of `allocation` and of `need` belongs to thread `t` of the process,
/// column `r` to the resource in slot `r`.
pub struct Ledger {
    /// Units of each resource that no thread holds.
    pub available: Vec<usize>,
    /// Units of each resource that each thread holds.
    pub allocation: Vec<Vec<usize>>,
    /// Units of each resource that each thread waits for.
    pub need: Vec<Vec<usize>>,
    /// Units of each resource that exist.
    pub total: Vec<usize>,
}

/// The ledger of one resource class as plain sequences.
pub struct LedgerView {
    /// Units of each resource that no thread holds.
    pub available: Seq<usize>,
    /// Units of each resource that each thread holds, one row per thread.
    pub held: Seq<Seq<usize>>,
    /// Units of each resource that each thread waits for, one row per thread.
    pub wanted: Seq<Seq<usize>>,
    /// Units of each resource that exist.
    pub total: Seq<usize>,
}

/// A row of `n` zeros.
pub open spec fn zero_row(n: nat) -> Seq<usize> {
    Seq::new(n, |r: int| 0usize)
}

impl LedgerView {
    /// The ledger without threads or resources.
    pub open spec fn empty() -> LedgerView {
        LedgerView {
            available: Seq::empty(),
            held: Seq::empty(),
            wanted: Seq::empty(),
            total: Seq::empty(),
        }
    }

    /// Number of thread rows.
    pub open spec fn threads(self) -> nat {
        self.held.len()
    }

    /// Number of resource columns.
    pub open spec fn resources(self) -> nat {
        self.available.len()
    }

    /// The matrices are rectangular, and for every resource the free units
    /// and the units held by all threads add up to the units that exist.
    pub open spec fn wf(self) -> bool {
        &&& self.wanted.len() == self.held.len()
        &&& self.total.len() == self.available.len()
        &&& rectangular(self.held, self.resources())
        &&& rectangular(self.wanted, self.resources())
        &&& forall|r: int|
            0 <= r < self.resources() ==> #[trigger] self.available[r] + column_sum(self.held, r)
                == self.total[r]
    }

    /// The ledger with `v` units of `r` held by thread `t`.
    pub open spec fn with_held(self, t: int, r: int, v: int) -> LedgerView {
        LedgerView { held: self.held.update(t, self.held[t].update(r, v as usize)), ..self }
    }

    /// The ledger with `v` units of `r` awaited by thread `t`.
    pub open spec fn with_wanted(self, t: int, r: int, v: int) -> LedgerView {
        LedgerView { wanted: self.wanted.update(t, self.wanted[t].update(r, v as usize)), ..self }
    }

    /// The ledger with `v` free units of `r`.
    pub open spec fn with_available(self, r: int, v: int) -> LedgerView {
        LedgerView { available: self.available.update(r, v as usize), ..self }
    }

    /// One free unit of `r` has gone to thread `t`.
    pub open spec fn granted(self, t: int, r: int) -> LedgerView {
        self.with_available(r, self.available[r] - 1).with_held(t, r, self.held[t][r] + 1)
    }

    /// Thread `t` has given one unit of `r` back.
    pub open spec fn given_back(self, t: int, r: int) -> LedgerView {
        self.with_available(r, self.available[r] + 1).with_held(t, r, self.held[t][r] - 1)
    }

    /// A further unit of `r` has come into being, free.
    pub open spec fn produced(self, r: int) -> LedgerView {
        LedgerView {
            available: self.available.update(r, (self.available[r] + 1) as usize),
            total: self.total.update(r, (self.total[r] + 1) as usize),
            ..self
        }
    }

    /// Thread `t` has released a unit of `r`: one that it held, or, if it
    /// held none, a further unit that comes into being with the release.
    pub open spec fn freed(self, t: int, r: int) -> LedgerView {
        if self.held[t][r] > 0 {
            self.given_back(t, r)
        } else {
            self.produced(r)
        }
    }

    /// Thread `t` waits for one more unit of `r`.
    pub open spec fn requested(self, t: int, r: int) -> LedgerView {
        self.with_wanted(t, r, self.wanted[t][r] + 1)
    }

    /// Thread `t` waits for one unit of `r` less.
    pub open spec fn withdrawn(self, t: int, r: int) -> LedgerView {
        self.with_wanted(t, r, self.wanted[t][r] - 1)
    }

    /// A unit of `r` that thread `t` waited for has gone to it.
    pub open spec fn admitted(self, t: int, r: int) -> LedgerView {
        self.granted(t, r).withdrawn(t, r)
    }

    /// A new thread has joined, holding and awaiting nothing.
    pub open spec fn with_thread(self) -> LedgerView {
        LedgerView {
            held: self.held.push(zero_row(self.resources())),
            wanted: self.wanted.push(zero_row(self.resources())),
            ..self
        }
    }

    /// A new resource of `units` free units has joined as the last column.
    pub open spec fn with_resource(self, units: usize) -> LedgerView {
        LedgerView {
            available: self.available.push(units),
            held: Seq::new(self.held.len(), |t: int| self.held[t].push(0usize)),
            wanted: Seq::new(self.wanted.len(), |t: int| self.wanted[t].push(0usize)),
            total: self.total.push(units),
        }
    }

    /// Resource `r` has become one of `units` free units that no thread
    /// holds or awaits.
    pub open spec fn reset(self, r: int, units: usize) -> LedgerView {
        LedgerView {
            available: self.available.update(r, units),
            held: Seq::new(self.held.len(), |t: int| self.held[t].update(r, 0usize)),
            wanted: Seq::new(self.wanted.len(), |t: int| self.wanted[t].update(r, 0usize)),
            total: self.total.update(r, units),
        }
    }
}

impl View for Ledger {
    type V = LedgerView;

    open spec fn view(&self) -> LedgerView {
        LedgerView {
            available: self.available@,
            held: Seq::new(self.allocation.len() as nat, |t: int| self.allocation[t]@),
            wanted: Seq::new(self.need.len() as nat, |t: int| self.need[t]@),
            total: self.total@,
        }
    }
}

/// A new thread's rows keep the ledger well-formed.
pub proof fn lemma_with_thread_wf(v: LedgerView)
    requires
        v.wf(),
    ensures
        v.with_thread().wf(),
{
    let after = v.with_thread();
    assert forall|r: int| 0 <= r < after.resources() implies #[trigger] after.available[r]
        + column_sum(after.held, r) == after.total[r] by {
        assert(after.held.drop_last() =~= v.held);
        assert(v.available[r] + column_sum(v.held, r) == v.total[r]);
    }
}

/// A new resource's column keeps the ledger well-formed.
pub proof fn lemma_with_resource_wf(v: LedgerView, units: usize)
    requires
        v.wf(),
    ensures
        v.with_resource(units).wf(),
{
    let after = v.with_resource(units);
    assert forall|r: int| 0 <= r < after.resources() implies #[trigger] after.available[r]
        + column_sum(after.held, r) == after.total[r] by {
        if r < v.resources() {
            assert forall|u: int| 0 <= u < v.held.len() implies v.held[u][r] == after.held[u][r] by {
                assert(v.held[u].len() == v.resources());
            }
            lemma_column_sum_agrees(v.held, after.held, r);
            assert(v.available[r] + column_sum(v.held, r) == v.total[r]);
        } else {
            assert forall|u: int| 0 <= u < after.held.len() implies after.held[u][r] == 0 by {
                assert(v.held[u].len() == v.resources());
            }
            lemma_column_sum_zero(after.held, r);
        }
    }
}

/// A column that is cleared and given new free units keeps the ledger
/// well-formed.
pub proof fn lemma_reset_wf(v: LedgerView, rid: int, units: usize)
    requires
        v.wf(),
        0 <= rid < v.resources(),
    ensures
        v.reset(rid, units).wf(),
{
    let after = v.reset(rid, units);
    assert forall|r: int| 0 <= r < after.resources() implies #[trigger] after.available[r]
        + column_sum(after.held, r) == after.total[r] by {
        if r != rid {
            assert forall|u: int| 0 <= u < v.held.len() implies v.held[u][r] == after.held[u][r] by {
                assert(v.held[u].len() == v.resources());
            }
            lemma_column_sum_agrees(v.held, after.held, r);
            assert(v.available[r] + column_sum(v.held, r) == v.total[r]);
        } else {
            assert forall|u: int| 0 <= u < after.held.len() implies after.held[u][r] == 0 by {
                assert(v.held[u].len() == v.resources());
            }
            lemma_column_sum_zero(after.held, r);
        }
    }
}

/// Moving a unit between the free units and a thread keeps the ledger
/// well-formed: `after` is `v` but for the free units of `rid` and for what
/// thread `tid` holds of it, and the two add up as before.
proof fn lemma_moved_wf(v: LedgerView, after: LedgerView, tid: int, rid: int)
    requires
        v.wf(),
        0 <= tid < v.threads(),
        0 <= rid < v.resources(),
        after.total == v.total,
        after.wanted == v.wanted,
        after.available == v.available.update(rid, after.available[rid]),
        after.held == v.held.update(tid, v.held[tid].update(rid, after.held[tid][rid])),
        after.available[rid] + after.held[tid][rid] == v.available[rid] + v.held[tid][rid],
    ensures
        after.wf(),
{
    assert forall|r: int| 0 <= r < after.resources() implies #[trigger] after.available[r]
        + column_sum(after.held, r) == after.total[r] by {
        assert(v.available[r] + column_sum(v.held, r) == v.total[r]);
        assert(v.held[tid].len() == v.resources());
        if r == rid {
            lemma_column_sum_entry(v.held, after.held, tid, rid);
        } else {
            lemma_column_sum_agrees(v.held, after.held, r);
        }
    }
}

/// A thread holds no more of a resource than exists of it, the free units
/// not counted.
pub proof fn lemma_held_bounded(v: LedgerView, tid: int, rid: int)
    requires
        v.wf(),
        0 <= tid < v.threads(),
        0 <= rid < v.resources(),
    ensures
        v.available[rid] + v.held[tid][rid] <= v.total[rid],
{
    lemma_row_bounded(v.held, tid, rid);
    assert(v.available[rid] + column_sum(v.held, rid) == v.total[rid]);
}

/// Granting a free unit keeps the ledger well-formed.
pub proof fn lemma_granted_wf(v: LedgerView, tid: int, rid: int)
    requires
        v.wf(),
        0 <= tid < v.threads(),
        0 <= rid < v.resources(),
        v.available[rid] > 0,
    ensures
        v.granted(tid, rid).wf(),
        v.held[tid][rid] < usize::MAX,
{
    lemma_held_bounded(v, tid, rid);
    assert(v.held[tid].len() == v.resources());
    lemma_moved_wf(v, v.granted(tid, rid), tid, rid);
}

/// Giving a held unit back keeps the ledger well-formed.
pub proof fn lemma_given_back_wf(v: LedgerView, tid: int, rid: int)
    requires
        v.wf(),
        0 <= tid < v.threads(),
        0 <= rid < v.resources(),
        v.held[tid][rid] > 0,
    ensures
        v.given_back(tid, rid).wf(),
        v.available[rid] < usize::MAX,
{
    lemma_held_bounded(v, tid, rid);
    assert(v.held[tid].len() == v.resources());
    lemma_moved_wf(v, v.given_back(tid, rid), tid, rid);
}

/// A further free unit keeps the ledger well-formed.
pub proof fn lemma_produced_wf(v: LedgerView, rid: int)
    requires
        v.wf(),
        0 <= rid < v.resources(),
        v.total[rid] < usize::MAX,
    ensures
        v.produced(rid).wf(),
        v.available[rid] < usize::MAX,
{
    lemma_column_sum_nonnegative(v.held, rid);
    assert(v.available[rid] + column_sum(v.held, rid) == v.total[rid]);
    let after = v.produced(rid);
    assert forall|r: int| 0 <= r < after.resources() implies #[trigger] after.available[r]
        + column_sum(after.held, r) == after.total[r] by {
        assert(v.available[r] + column_sum(v.held, r) == v.total[r]);
    }
}

/// A release keeps the ledger well-formed and adds one free unit.
pub proof fn lemma_freed_wf(v: LedgerView, tid: int, rid: int)
    requires
        v.wf(),
        0 <= tid < v.threads(),
        0 <= rid < v.resources(),
        v.held[tid][rid] > 0 || v.total[rid] < usize::MAX,
    ensures
        v.freed(tid, rid).wf(),
        v.available[rid] < usize::MAX,
        v.freed(tid, rid).available == v.available.update(rid, (v.available[rid] + 1) as usize),
        v.freed(tid, rid).wanted == v.wanted,
        v.freed(tid, rid).threads() == v.threads(),
        v.freed(tid, rid).resources() == v.resources(),
{
    if v.held[tid][rid] > 0 {
        lemma_given_back_wf(v, tid, rid);
    } else {
        lemma_produced_wf(v, rid);
    }
}

/// What a thread waits for has no part in the ledger's well-formedness
/// beyond the shape of the matrix.
pub proof fn lemma_with_wanted_wf(v: LedgerView, tid: int, rid: int, n: int)
    requires
        v.wf(),
        0 <= tid < v.threads(),
        0 <= rid < v.resources(),
    ensures
        v.with_wanted(tid, rid, n).wf(),
{
    let after = v.with_wanted(tid, rid, n);
    assert forall|r: int| 0 <= r < after.resources() implies #[trigger] after.available[r]
        + column_sum(after.held, r) == after.total[r] by {
        assert(v.available[r] + column_sum(v.held, r) == v.total[r]);
    }
    assert(v.wanted[tid].len() == v.resources());
}

impl Ledger {
    /// The matrices are rectangular and the units of every resource conserved.
    pub open spec fn wf(&self) -> bool {
        self@.wf()
    }

    /// A ledger without threads or resources.
    pub fn new() -> (ledger: Ledger)
        ensures
            ledger.wf(),
            ledger@ == LedgerView::empty(),
    {
        let ledger = Ledger {
            available: Vec::new(),
            allocation: Vec::new(),
            need: Vec::new(),
            total: Vec::new(),
        };
        assert(ledger@.held =~= Seq::empty());
        assert(ledger@.wanted =~= Seq::empty());
        ledger
    }

    /// Number of thread rows.
    pub fn thread_count(&self) -> (n: usize)
        ensures
            n == self@.threads(),
    {
        self.allocation.len()
    }

    /// Number of resource columns.
    pub fn resource_count(&self) -> (n: usize)
        ensures
            n == self@.resources(),
    {
        self.available.len()
    }

    /// Appends the row of a new thread, which holds and awaits nothing.
    pub(crate) fn add_thread(&mut self)
        requires
            old(self).wf(),
        ensures
            final(self).wf(),
            final(self)@ == old(self)@.with_thread(),
    {
        let cols: usize = self.available.len();
        let held_row = zeros(cols);
        let need_row = zeros(cols);
        self.allocation.push(held_row);
        self.need.push(need_row);
        proof {
            let after = old(self)@.with_thread();
            assert(self@.held =~= after.held);
            assert(self@.wanted =~= after.wanted);
            lemma_with_thread_wf(old(self)@);
        }
    }

    /// Appends the column of a new resource of `units` units, all of them free.
    pub(crate) fn add_resource(&mut self, units: usize)
        requires
            old(self).wf(),
        ensures
            final(self).wf(),
            final(self)@ == old(self)@.with_resource(units),
    {
        let rows: usize = self.allocation.len();
        self.available.push(units);
        self.total.push(units);
        let mut t: usize = 0;
        while t < rows
            invariant
                t <= rows,
                rows == old(self).allocation.len(),
                self.allocation.len() == rows,
                self.need.len() == rows,
                self.available@ == old(self).available@.push(units),
                self.total@ == old(self).total@.push(units),
                old(self).wf(),
                forall|u: int|
                    0 <= u < t ==> #[trigger] self.allocation[u]@ == old(self).allocation[u]@.push(
                        0usize,
                    ),
                forall|u: int|
                    0 <= u < t ==> #[trigger] self.need[u]@ == old(self).need[u]@.push(0usize),
                forall|u: int| t <= u < rows ==> #[trigger] self.allocation[u] == old(self).allocation[u],
                forall|u: int| t <= u < rows ==> #[trigger] self.need[u] == old(self).need[u],
            decreases rows - t,
        {
            self.allocation[t].push(0);
            self.need[t].push(0);
            t = t + 1;
        }
        proof {
            let after = old(self)@.with_resource(units);
            assert(self@.held =~= after.held);
            assert(self@.wanted =~= after.wanted);
            lemma_with_resource_wf(old(self)@, units);
        }
    }

    /// Makes resource `rid` one of `units` units, all free, that no thread
    /// holds or awaits.
    pub(crate) fn reset_resource(&mut self, rid: usize, units: usize)
        requires
            old(self).wf(),
            rid < old(self)@.resources(),
        ensures
            final(self).wf(),
            final(self)@ == old(self)@.reset(rid as int, units),
    {
        let rows: usize = self.allocation.len();
        self.available[rid] = units;
        self.total[rid] = units;
        let mut t: usize = 0;
        while t < rows
            invariant
                t <= rows,
                rows == old(self).allocation.len(),
                self.allocation.len() == rows,
                self.need.len() == rows,
                self.available@ == old(self).available@.update(rid as int, units),
                self.total@ == old(self).total@.update(rid as int, units),
                old(self).wf(),
                rid < old(self)@.resources(),
                forall|u: int|
                    0 <= u < t ==> #[trigger] self.allocation[u]@ == old(self).allocation[u]@.update(rid as int, 0usize),
                forall|u: int|
                    0 <= u < t ==> #[trigger] self.need[u]@ == old(self).need[u]@.update(
                        rid as int,
                        0usize,
                    ),
                forall|u: int| t <= u < rows ==> #[trigger] self.allocation[u] == old(self).allocation[u],
                forall|u: int| t <= u < rows ==> #[trigger] self.need[u] == old(self).need[u],
            decreases rows - t,
        {
            proof {
                assert(old(self)@.held[t as int].len() == old(self)@.resources());
                assert(old(self)@.wanted[t as int].len() == old(self)@.resources());
            }
            self.allocation[t][rid] = 0;
            self.need[t][rid] = 0;
            t = t + 1;
        }
        proof {
            let after = old(self)@.reset(rid as int, units);
            assert(self@.held =~= after.held);
            assert(self@.wanted =~= after.wanted);
            lemma_reset_wf(old(self)@, rid as int, units);
        }
    }

    /// Moves one free unit of `rid` to thread `tid`.
    pub(crate) fn grant(&mut self, tid: usize, rid: usize)
        requires
            old(self).wf(),
            tid < old(self)@.threads(),
            rid < old(self)@.resources(),
            old(self)@.available[rid as int] > 0,
        ensures
            final(self).wf(),
            final(self)@ == old(self)@.granted(tid as int, rid as int),
    {
        proof {
            lemma_granted_wf(old(self)@, tid as int, rid as int);
            assert(old(self)@.held[tid as int].len() == old(self)@.resources());
        }
        self.available[rid] = self.available[rid] - 1;
        self.allocation[tid][rid] = self.allocation[tid][rid] + 1;
        proof {
            let after = old(self)@.granted(tid as int, rid as int);
            assert(self@.held =~= after.held);
            assert(self@.wanted =~= after.wanted);
            assert(self@.available =~= after.available);
        }
    }

    /// Takes one unit of `rid` from thread `tid` and frees it.
    pub(crate) fn give_back(&mut self, tid: usize, rid: usize)
        requires
            old(self).wf(),
            tid < old(self)@.threads(),
            rid < old(self)@.resources(),
            old(self)@.held[tid as int][rid as int] > 0,
        ensures
            final(self).wf(),
            final(self)@ == old(self)@.given_back(tid as int, rid as int),
    {
        proof {
            lemma_given_back_wf(old(self)@, tid as int, rid as int);
            assert(old(self)@.held[tid as int].len() == old(self)@.resources());
        }
        self.available[rid] = self.available[rid] + 1;
        self.allocation[tid][rid] = self.allocation[tid][rid] - 1;
        proof {
            let after = old(self)@.given_back(tid as int, rid as int);
            assert(self@.held =~= after.held);
            assert(self@.wanted =~= after.wanted);
            assert(self@.available =~= after.available);
        }
    }

    /// Adds a further unit of `rid`, free.
    pub(crate) fn produce(&mut self, rid: usize)
        requires
            old(self).wf(),
            rid < old(self)@.resources(),
            old(self)@.total[rid as int] < usize::MAX,
        ensures
            final(self).wf(),
            final(self)@ == old(self)@.produced(rid as int),
    {
        proof {
            lemma_produced_wf(old(self)@, rid as int);
        }
        self.available[rid] = self.available[rid] + 1;
        self.total[rid] = self.total[rid] + 1;
        proof {
            let after = old(self)@.produced(rid as int);
            assert(self@.held =~= after.held);
            assert(self@.wanted =~= after.wanted);
            assert(self@.available =~= after.available);
            assert(self@.total =~= after.total);
        }
    }

    /// Records that thread `tid` waits for one more unit of `rid`.
    pub(crate) fn request(&mut self, tid: usize, rid: usize)
        requires
            old(self).wf(),
            tid < old(self)@.threads(),
            rid < old(self)@.resources(),
            old(self)@.wanted[tid as int][rid as int] < usize::MAX,
        ensures
            final(self).wf(),
            final(self)@ == old(self)@.requested(tid as int, rid as int),
    {
        proof {
            assert(old(self)@.wanted[tid as int].len() == old(self)@.resources());
            lemma_with_wanted_wf(
                old(self)@,
                tid as int,
                rid as int,
                old(self)@.wanted[tid as int][rid as int] + 1,
            );
        }
        self.need[tid][rid] = self.need[tid][rid] + 1;
        proof {
            let after = old(self)@.requested(tid as int, rid as int);
            assert(self@.held =~= after.held);
            assert(self@.wanted =~= after.wanted);
        }
    }

    /// Records that thread `tid` waits for one unit of `rid` less.
    pub(crate) fn withdraw(&mut self, tid: usize, rid: usize)
        requires
            old(self).wf(),
            tid < old(self)@.threads(),
            rid < old(self)@.resources(),
            old(self)@.wanted[tid as int][rid as int] > 0,
        ensures
            final(self).wf(),
            final(self)@ == old(self)@.withdrawn(tid as int, rid as int),
    {
        proof {
            assert(old(self)@.wanted[tid as int].len() == old(self)@.resources());
            lemma_with_wanted_wf(
                old(self)@,
                tid as int,
                rid as int,
                old(self)@.wanted[tid as int][rid as int] - 1,
            );
        }
        self.need[tid][rid] = self.need[tid][rid] - 1;
        proof {
            let after = old(self)@.withdrawn(tid as int, rid as int);
            assert(self@.held =~= after.held);
            assert(self@.wanted =~= after.wanted);
        }
    }
}

/// A row of `n` zeros.
pub(crate) fn zeros(n: usize) -> (row: Vec<usize>)
    ensures
        row@ == zero_row(n as nat),
{
    let mut row: Vec<usize> = Vec::new();
    let mut r: usize = 0;
    while r < n
        invariant
            r <= n,
            row@ == zero_row(r as nat),
        decreases n - r,
    {
        row.push(0);
        r = r + 1;
        assert(row@ =~= zero_row(r as nat));
    }
    row
}

} // verus!
