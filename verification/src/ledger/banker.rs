//! The safety check of the ledger: can every thread still run to its end,
//! one after the other, if each first waits for all that it needs and then
//! gives back all that it holds?
use crate::ledger::matrices::{Ledger, LedgerView};
use crate::ledger::sums::{
    column_sum, distinct_rows, held_by, lemma_held_by_bounded, lemma_held_by_subset,
};
use vstd::prelude::*;

verus! {

impl LedgerView {
    /// The units of `r` that are free once the threads in `done` have given
    /// back what they hold.
    pub open spec fn work_after(self, done: Seq<int>, r: int) -> int {
        self.available[r] + held_by(self.held, done, r)
    }

    /// Thread `t` needs no more of any resource than is free after `done`.
    pub open spec fn can_finish(self, t: int, done: Seq<int>) -> bool {
        forall|r: int|
            0 <= r < self.resources() ==> (#[trigger] self.wanted[t][r]) <= self.work_after(done, r)
    }

    /// `order` lists every thread once, and each thread in it can finish
    /// after those listed before it.
    pub open spec fn safe_sequence(self, order: Seq<int>) -> bool {
        &&& order.len() == self.threads()
        &&& distinct_rows(order, self.threads() as int)
        &&& forall|k: int|
            0 <= k < order.len() ==> self.can_finish(#[trigger] order[k], order.take(k))
    }

    /// Some order exists in which all threads can finish.
    pub open spec fn safe(self) -> bool {
        exists|order: Seq<int>| self.safe_sequence(order)
    }

    /// No thread outside `done` can finish after `done`.
    pub open spec fn stuck_after(self, done: Seq<int>) -> bool {
        forall|t: int|
            0 <= t < self.threads() && !done.contains(t) ==> !#[trigger] self.can_finish(t, done)
    }

    /// `done` is the start of a safe sequence: its members are threads,
    /// none twice, each able to finish after those before it.
    pub open spec fn safe_prefix(self, done: Seq<int>) -> bool {
        &&& distinct_rows(done, self.threads() as int)
        &&& forall|k: int|
            0 <= k < done.len() ==> self.can_finish(#[trigger] done[k], done.take(k))
    }

    /// Where a safe start cannot be continued and leaves a thread out, no
    /// order at all is safe.
    pub proof fn lemma_stuck_is_unsafe(self, done: Seq<int>)
        requires
            self.wf(),
            self.safe_prefix(done),
            self.stuck_after(done),
            done.len() < self.threads(),
        ensures
            !self.safe(),
    {
        if self.safe() {
            let order = choose|order: Seq<int>| self.safe_sequence(order);
            let k = first_outside(order, done);
            let t = order[k];
            let before = order.take(k);
            assert(self.can_finish(t, before));
            assert(before.no_duplicates());
            assert forall|j: int| 0 <= j < before.len() implies done.contains(
                #[trigger] before[j],
            ) by {
                assert(before[j] == order[j]);
            }
            assert forall|r: int| 0 <= r < self.resources() implies (#[trigger] self.wanted[t][r])
                <= self.work_after(done, r) by {
                lemma_held_by_subset(self.held, before, done, r);
                assert(self.wanted[t][r] <= self.work_after(before, r));
            }
            assert(self.can_finish(t, done));
            assert(false);
        }
    }
}

impl Ledger {
    /// Does thread `t` need no more of any resource than `work` holds?
    fn row_fits(&self, t: usize, work: &Vec<usize>, Ghost(done): Ghost<Seq<int>>) -> (fits: bool)
        requires
            self.wf(),
            t < self@.threads(),
            work.len() == self@.resources(),
            forall|r: int|
                #![trigger work[r]]
                0 <= r < self@.resources() ==> work[r] == self@.work_after(done, r),
        ensures
            fits == self@.can_finish(t as int, done),
    {
        let cols: usize = self.available.len();
        let mut r: usize = 0;
        assert(self@.wanted[t as int].len() == self@.resources());
        while r < cols
            invariant
                r <= cols,
                cols == self@.resources(),
                t < self.need.len(),
                self.need[t as int].len() == cols,
                work.len() == cols,
                forall|q: int| #![trigger work[q]] 0 <= q < cols ==> work[q] == self@.work_after(done, q),
                forall|q: int|
                    0 <= q < r ==> (#[trigger] self@.wanted[t as int][q]) <= self@.work_after(done, q),
            decreases cols - r,
        {
            if work[r] < self.need[t][r] {
                assert(self@.wanted[t as int][r as int] == self.need[t as int][r as int]);
                assert(!(self@.wanted[t as int][r as int] <= self@.work_after(done, r as int)));
                return false;
            }
            r = r + 1;
        }
        true
    }

    /// Adds to `work` what thread `t` holds of each resource.
    fn collect_row(&self, t: usize, work: &mut Vec<usize>, Ghost(done): Ghost<Seq<int>>)
        requires
            self.wf(),
            t < self@.threads(),
            distinct_rows(done.push(t as int), self@.threads() as int),
            old(work).len() == self@.resources(),
            forall|r: int|
                #![trigger old(work)[r]]
                0 <= r < self@.resources() ==> old(work)[r] == self@.work_after(done, r),
        ensures
            final(work).len() == self@.resources(),
            forall|r: int|
                #![trigger final(work)[r]]
                0 <= r < self@.resources() ==> final(work)[r] == self@.work_after(
                    done.push(t as int),
                    r,
                ),
    {
        let cols: usize = self.available.len();
        let mut r: usize = 0;
        assert(self@.held[t as int].len() == self@.resources());
        while r < cols
            invariant
                r <= cols,
                cols == self@.resources(),
                self.wf(),
                t < self.allocation.len(),
                self.allocation[t as int].len() == cols,
                work.len() == cols,
                distinct_rows(done.push(t as int), self@.threads() as int),
                forall|q: int|
                    #![trigger work[q]]
                    0 <= q < r ==> work[q] == self@.work_after(done.push(t as int), q),
                forall|q: int| #![trigger work[q]] r <= q < cols ==> work[q] == self@.work_after(done, q),
            decreases cols - r,
        {
            proof {
                let next = done.push(t as int);
                assert(next.drop_last() =~= done);
                assert(next.last() == t);
                assert(self@.held[t as int][r as int] == self.allocation[t as int][r as int]);
                assert(held_by(self@.held, next, r as int) == held_by(self@.held, done, r as int)
                    + self@.held[t as int][r as int]);
                lemma_held_by_bounded(self@.held, next, r as int);
                assert(self.available[r as int] + column_sum(self@.held, r as int)
                    == self.total[r as int]);
            }
            work[r] = work[r] + self.allocation[t][r];
            r = r + 1;
        }
    }

    /// Runs the safety check: starting from the free units, it lets any
    /// thread finish whose needs are covered, adds what that thread holds to
    /// the free units, and goes on until no further thread can finish. The
    /// state is safe when no thread is left over.
    pub fn is_safe(&self) -> (safe: bool)
        requires
            self.wf(),
        ensures
            safe == self@.safe(),
    {
        let rows: usize = self.allocation.len();
        let cols: usize = self.available.len();
        let mut work: Vec<usize> = Vec::new();
        let mut r: usize = 0;
        while r < cols
            invariant
                r <= cols,
                cols == self.available.len(),
                work.len() == r,
                forall|q: int| #![trigger work[q]] 0 <= q < r ==> work[q] == self.available[q],
            decreases cols - r,
        {
            work.push(self.available[r]);
            r = r + 1;
        }
        let mut finish: Vec<bool> = Vec::new();
        let mut t: usize = 0;
        while t < rows
            invariant
                t <= rows,
                finish.len() == t,
                forall|u: int| 0 <= u < t ==> !finish[u],
            decreases rows - t,
        {
            finish.push(false);
            t = t + 1;
        }
        let ghost mut done: Seq<int> = Seq::empty();
        let mut finished: usize = 0;
        let mut progress: bool = true;
        while progress
            invariant
                self.wf(),
                rows == self@.threads(),
                cols == self@.resources(),
                work.len() == cols,
                finish.len() == rows,
                finished == done.len(),
                finished <= rows,
                self@.safe_prefix(done),
                forall|u: int| 0 <= u < rows ==> (finish[u] <==> done.contains(u)),
                forall|q: int| #![trigger work[q]] 0 <= q < cols ==> work[q] == self@.work_after(done, q),
                !progress ==> self@.stuck_after(done),
            decreases rows - finished + (if progress { 1int } else { 0int }),
        {
            progress = false;
            let ghost at_start = done;
            let mut i: usize = 0;
            while i < rows
                invariant
                    i <= rows,
                    self.wf(),
                    rows == self@.threads(),
                    cols == self@.resources(),
                    work.len() == cols,
                    finish.len() == rows,
                    finished == done.len(),
                    finished <= rows,
                    self@.safe_prefix(done),
                    forall|u: int| 0 <= u < rows ==> (finish[u] <==> done.contains(u)),
                    forall|q: int| #![trigger work[q]] 0 <= q < cols ==> work[q] == self@.work_after(done, q),
                    !progress ==> done == at_start,
                    progress ==> done.len() > at_start.len(),
                    !progress ==> forall|u: int|
                        0 <= u < i && !done.contains(u) ==> !#[trigger] self@.can_finish(u, done),
                decreases rows - i,
            {
                if !finish[i] {
                    let fits = self.row_fits(i, &work, Ghost(done));
                    if fits {
                        proof {
                            lemma_push_distinct(done, i as int, rows as int);
                        }
                        self.collect_row(i, &mut work, Ghost(done));
                        finish[i] = true;
                        proof {
                            let next = done.push(i as int);
                            assert(next.take(done.len() as int) =~= done);
                            assert forall|k: int| 0 <= k < next.len() implies self@.can_finish(
                                #[trigger] next[k],
                                next.take(k),
                            ) by {
                                if k < done.len() {
                                    assert(next.take(k) =~= done.take(k));
                                    assert(next[k] == done[k]);
                                }
                            }
                            assert forall|u: int| 0 <= u < rows implies (finish[u]
                                <==> next.contains(u)) by {
                                if u == i {
                                    assert(next[done.len() as int] == u);
                                } else if done.contains(u) {
                                    let w = choose|w: int| 0 <= w < done.len() && done[w] == u;
                                    assert(next[w] == u);
                                } else if next.contains(u) {
                                    let w = choose|w: int| 0 <= w < next.len() && next[w] == u;
                                    assert(done[w] == u);
                                }
                            }
                            lemma_distinct_len(next, rows as int);
                            done = next;
                        }
                        finished = finished + 1;
                        progress = true;
                    }
                }
                i = i + 1;
            }
        }
        proof {
            if finished == rows {
                assert(self@.safe_sequence(done));
            } else {
                self@.lemma_stuck_is_unsafe(done);
            }
        }
        finished == rows
    }
}

/// The first position of `order` whose member is not in `done`.
proof fn first_outside(order: Seq<int>, done: Seq<int>) -> (k: int)
    requires
        order.no_duplicates(),
        done.no_duplicates(),
        done.len() < order.len(),
    ensures
        0 <= k < order.len(),
        !done.contains(order[k]),
        forall|j: int| 0 <= j < k ==> done.contains(#[trigger] order[j]),
{
    if forall|j: int| 0 <= j < order.len() ==> done.contains(#[trigger] order[j]) {
        order.unique_seq_to_set();
        done.unique_seq_to_set();
        assert(order.to_set().subset_of(done.to_set())) by {
            assert forall|x: int| order.to_set().contains(x) implies done.to_set().contains(x) by {
                let j = choose|j: int| 0 <= j < order.len() && order[j] == x;
                assert(done.contains(order[j]));
            }
        }
        vstd::set_lib::lemma_len_subset(order.to_set(), done.to_set());
        assert(false);
    }
    least_outside(order, done, order.len() as int)
}

/// The first position below `bound` whose member is not in `done`, where
/// there is one.
proof fn least_outside(order: Seq<int>, done: Seq<int>, bound: int) -> (k: int)
    requires
        0 <= bound <= order.len(),
        exists|j: int| 0 <= j < bound && !done.contains(#[trigger] order[j]),
    ensures
        0 <= k < bound,
        !done.contains(order[k]),
        forall|j: int| 0 <= j < k ==> done.contains(#[trigger] order[j]),
    decreases bound,
{
    if exists|j: int| 0 <= j < bound - 1 && !done.contains(#[trigger] order[j]) {
        least_outside(order, done, bound - 1)
    } else {
        bound - 1
    }
}

/// A list of different rows stays one when a row outside it is appended.
proof fn lemma_push_distinct(done: Seq<int>, t: int, rows: int)
    requires
        distinct_rows(done, rows),
        0 <= t < rows,
        !done.contains(t),
    ensures
        distinct_rows(done.push(t), rows),
{
    let next = done.push(t);
    assert forall|j: int, k: int| 0 <= j < next.len() && 0 <= k < next.len() && j != k implies next[j]
        != next[k] by {
        if j < done.len() {
            assert(done.contains(next[j]));
        }
        if k < done.len() {
            assert(done.contains(next[k]));
        }
    }
}

/// A list of different rows is no longer than the number of rows.
proof fn lemma_distinct_len(who: Seq<int>, rows: int)
    requires
        distinct_rows(who, rows),
        0 <= rows,
    ensures
        who.len() <= rows,
{
    who.unique_seq_to_set();
    let all = Set::new(|x: int| 0 <= x < rows);
    vstd::set_lib::lemma_int_range(0, rows);
    assert(all =~= vstd::set_lib::set_int_range(0, rows));
    assert(who.to_set().subset_of(all)) by {
        assert forall|x: int| who.to_set().contains(x) implies all.contains(x) by {
            let j = choose|j: int| 0 <= j < who.len() && who[j] == x;
            assert(0 <= who[j] < rows);
        }
    }
    vstd::set_lib::lemma_len_subset(who.to_set(), all);
}

} // verus!
