//! Stride arithmetic. Strides are 64-bit counters that wrap; they are
//! compared by their distance on the circle of counter values, so that a
//! stride that has wrapped still counts as later than one that has not, as
//! long as the two are less than half the circle apart.
use crate::config::{BIG_STRIDE, MIN_PRIORITY};
use vstd::prelude::*;

verus! {

/// Half the circle of counter values.
pub const HALF_RANGE: u64 = 0x8000_0000_0000_0000;

/// How far `to` lies ahead of `from` on the circle of counter values.
pub open spec fn distance(from: u64, to: u64) -> int {
    if to >= from {
        to - from
    } else {
        to - from + 0x1_0000_0000_0000_0000
    }
}

/// Stride `a` is due before stride `b`: `b` lies ahead of `a` by less than
/// half the circle.
pub open spec fn stride_before(a: u64, b: u64) -> bool {
    0 < distance(a, b) < HALF_RANGE
}

/// The stride that a unit of priority `priority` advances by at each
/// dispatch.
pub open spec fn pass_of(priority: u64) -> u64 {
    BIG_STRIDE / priority
}

/// The stride after one dispatch.
pub open spec fn advanced(stride: u64, priority: u64) -> u64 {
    stride.wrapping_add(pass_of(priority))
}

/// Is stride `a` due before stride `b`?
pub fn comes_before(a: u64, b: u64) -> (before: bool)
    ensures
        before == stride_before(a, b),
{
    if b >= a {
        let ahead: u64 = b - a;
        0 < ahead && ahead < HALF_RANGE
    } else {
        let behind: u64 = a - b;
        behind > HALF_RANGE
    }
}

/// The stride after one dispatch of a unit of priority `priority`.
pub fn advance(stride: u64, priority: u64) -> (next: u64)
    requires
        priority >= MIN_PRIORITY,
    ensures
        next == advanced(stride, priority),
        distance(stride, next) == pass_of(priority),
        pass_of(priority) < HALF_RANGE,
{
    proof {
        lemma_pass_bounded(priority);
    }
    let pass: u64 = BIG_STRIDE / priority;
    stride.wrapping_add(pass)
}

/// A pass is less than half the circle, since no priority is below 2.
pub proof fn lemma_pass_bounded(priority: u64)
    requires
        priority >= MIN_PRIORITY,
    ensures
        pass_of(priority) < HALF_RANGE,
{
    vstd::arithmetic::div_mod::lemma_div_is_ordered_by_denominator(
        BIG_STRIDE as int,
        2,
        priority as int,
    );
    assert(BIG_STRIDE as int / 2 == 0x7FFF_FFFF_FFFF_FFFF);
}

/// The position in `strides` of the stride that is due first: the scan
/// starts with the first stride and moves on to a later one only where that
/// is due before the one it holds, so of equal strides the earliest wins.
pub open spec fn pick(strides: Seq<u64>) -> int
    decreases strides.len(),
{
    if strides.len() <= 1 {
        0
    } else {
        let best = pick(strides.drop_last());
        if stride_before(strides.last(), strides[best]) {
            strides.len() - 1
        } else {
            best
        }
    }
}

/// All of `strides` lie less than half the circle ahead of `base`.
pub open spec fn in_window(strides: Seq<u64>, base: u64) -> bool {
    forall|i: int| 0 <= i < strides.len() ==> distance(base, #[trigger] strides[i]) < HALF_RANGE
}

/// The scan of a queue that is not empty ends on one of its positions.
pub proof fn lemma_pick_in_range(strides: Seq<u64>)
    requires
        strides.len() > 0,
    ensures
        0 <= pick(strides) < strides.len(),
    decreases strides.len(),
{
    if strides.len() > 1 {
        lemma_pick_in_range(strides.drop_last());
    }
}

/// Of two strides in one window, the one nearer to the window's base is due
/// before the other.
pub proof fn lemma_before_in_window(base: u64, a: u64, b: u64)
    requires
        distance(base, a) < HALF_RANGE,
        distance(base, b) < HALF_RANGE,
    ensures
        stride_before(a, b) <==> distance(base, a) < distance(base, b),
{
}

/// Where all strides lie in one window, the scan finds the least of them,
/// measured from the window's base, and of equal ones the earliest in the
/// queue. This holds in particular while no stride has wrapped and the
/// strides are less than half the circle apart, with the least stride as
/// base.
pub proof fn lemma_pick_is_minimum(strides: Seq<u64>, base: u64)
    requires
        strides.len() > 0,
        in_window(strides, base),
    ensures
        0 <= pick(strides) < strides.len(),
        forall|j: int|
            0 <= j < strides.len() ==> distance(base, strides[pick(strides)]) <= distance(
                base,
                #[trigger] strides[j],
            ),
        forall|j: int|
            0 <= j < pick(strides) ==> distance(base, strides[pick(strides)]) < distance(
                base,
                #[trigger] strides[j],
            ),
    decreases strides.len(),
{
    if strides.len() > 1 {
        let front = strides.drop_last();
        assert(in_window(front, base)) by {
            assert forall|i: int| 0 <= i < front.len() implies distance(base, #[trigger] front[i])
                < HALF_RANGE by {
                assert(front[i] == strides[i]);
            }
        }
        lemma_pick_is_minimum(front, base);
        let best = pick(front);
        assert(front[best] == strides[best]);
        lemma_before_in_window(base, strides.last(), strides[best]);
        assert forall|j: int| 0 <= j < strides.len() implies distance(
            base,
            strides[pick(strides)],
        ) <= distance(base, #[trigger] strides[j]) by {
            if j < front.len() {
                assert(front[j] == strides[j]);
            }
        }
        assert forall|j: int| 0 <= j < pick(strides) implies distance(
            base,
            strides[pick(strides)],
        ) < distance(base, #[trigger] strides[j]) by {
            if j < front.len() {
                assert(front[j] == strides[j]);
            }
        }
    }
}

/// While no stride has wrapped and any two strides are less than half the
/// circle apart, the scan finds the smallest stride, and of equal ones the
/// earliest in the queue.
pub proof fn lemma_pick_is_smallest(strides: Seq<u64>)
    requires
        strides.len() > 0,
        forall|i: int, j: int|
            0 <= i < strides.len() && 0 <= j < strides.len() ==> strides[i] - strides[j]
                < HALF_RANGE,
    ensures
        0 <= pick(strides) < strides.len(),
        forall|j: int| 0 <= j < strides.len() ==> strides[pick(strides)] <= #[trigger] strides[j],
        forall|j: int| 0 <= j < pick(strides) ==> strides[pick(strides)] < #[trigger] strides[j],
    decreases strides.len(),
{
    if strides.len() > 1 {
        let front = strides.drop_last();
        assert forall|i: int, j: int| 0 <= i < front.len() && 0 <= j < front.len() implies front[i]
            - front[j] < HALF_RANGE by {
            assert(front[i] == strides[i] && front[j] == strides[j]);
        }
        lemma_pick_is_smallest(front);
        let best = pick(front);
        assert(front[best] == strides[best]);
        assert(strides.last() == strides[strides.len() - 1]);
        assert forall|j: int| 0 <= j < strides.len() implies strides[pick(strides)]
            <= #[trigger] strides[j] by {
            if j < front.len() {
                assert(front[j] == strides[j]);
            }
        }
        assert forall|j: int| 0 <= j < pick(strides) implies strides[pick(strides)]
            < #[trigger] strides[j] by {
            if j < front.len() {
                assert(front[j] == strides[j]);
            }
        }
    }
}

} // verus!
