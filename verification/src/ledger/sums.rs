//! Sums over the columns of a matrix of unit counts.
use vstd::prelude::*;

verus! {

/// Every row of `m` has exactly `cols` entries.
pub open spec fn rectangular(m: Seq<Seq<usize>>, cols: nat) -> bool {
    forall|t: int| 0 <= t < m.len() ==> (#[trigger] m[t]).len() == cols
}

/// The sum of column `r` over all rows of `m`.
pub open spec fn column_sum(m: Seq<Seq<usize>>, r: int) -> int
    decreases m.len(),
{
    if m.len() == 0 {
        0
    } else {
        column_sum(m.drop_last(), r) + m.last()[r]
    }
}

/// The sum of column `r` over the rows that `who` lists, in its order.
pub open spec fn held_by(m: Seq<Seq<usize>>, who: Seq<int>, r: int) -> int
    decreases who.len(),
{
    if who.len() == 0 {
        0
    } else {
        held_by(m, who.drop_last(), r) + m[who.last()][r]
    }
}

/// All members of `who` are row numbers below `rows`, none listed twice.
pub open spec fn distinct_rows(who: Seq<int>, rows: int) -> bool {
    &&& who.no_duplicates()
    &&& forall|k: int| #![trigger who[k]] 0 <= k < who.len() ==> 0 <= who[k] < rows
}

/// No column sums to less than nothing.
pub proof fn lemma_column_sum_nonnegative(m: Seq<Seq<usize>>, r: int)
    ensures
        column_sum(m, r) >= 0,
    decreases m.len(),
{
    if m.len() > 0 {
        lemma_column_sum_nonnegative(m.drop_last(), r);
    }
}

/// Two matrices that agree on column `r` have the same sum there.
pub proof fn lemma_column_sum_agrees(a: Seq<Seq<usize>>, b: Seq<Seq<usize>>, r: int)
    requires
        a.len() == b.len(),
        forall|t: int| 0 <= t < a.len() ==> a[t][r] == b[t][r],
    ensures
        column_sum(a, r) == column_sum(b, r),
    decreases a.len(),
{
    if a.len() > 0 {
        lemma_column_sum_agrees(a.drop_last(), b.drop_last(), r);
    }
}

/// A column of zeros sums to zero.
pub proof fn lemma_column_sum_zero(m: Seq<Seq<usize>>, r: int)
    requires
        forall|t: int| 0 <= t < m.len() ==> m[t][r] == 0,
    ensures
        column_sum(m, r) == 0,
    decreases m.len(),
{
    if m.len() > 0 {
        lemma_column_sum_zero(m.drop_last(), r);
    }
}

/// Changing one entry of column `r` moves the column's sum by the difference;
/// `b` is `a` but for row `t`.
pub proof fn lemma_column_sum_entry(a: Seq<Seq<usize>>, b: Seq<Seq<usize>>, t: int, r: int)
    requires
        a.len() == b.len(),
        0 <= t < a.len(),
        forall|u: int| 0 <= u < a.len() && u != t ==> a[u][r] == b[u][r],
    ensures
        column_sum(b, r) == column_sum(a, r) - a[t][r] + b[t][r],
    decreases a.len(),
{
    if t == a.len() - 1 {
        lemma_column_sum_agrees(a.drop_last(), b.drop_last(), r);
    } else {
        lemma_column_sum_entry(a.drop_last(), b.drop_last(), t, r);
    }
}

/// Two matrices that agree on the listed rows hold the same sum over them.
pub proof fn lemma_held_by_agrees(a: Seq<Seq<usize>>, b: Seq<Seq<usize>>, who: Seq<int>, r: int)
    requires
        forall|k: int| 0 <= k < who.len() ==> a[who[k]][r] == b[who[k]][r],
    ensures
        held_by(a, who, r) == held_by(b, who, r),
    decreases who.len(),
{
    if who.len() > 0 {
        lemma_held_by_agrees(a, b, who.drop_last(), r);
    }
}

/// Striking one member from the list takes its entry out of the sum.
pub proof fn lemma_held_by_remove(m: Seq<Seq<usize>>, who: Seq<int>, i: int, r: int)
    requires
        0 <= i < who.len(),
    ensures
        held_by(m, who.remove(i), r) == held_by(m, who, r) - m[who[i]][r],
    decreases who.len(),
{
    if i == who.len() - 1 {
        assert(who.remove(i) =~= who.drop_last());
    } else {
        assert(who.remove(i).drop_last() =~= who.drop_last().remove(i));
        assert(who.remove(i).last() == who.last());
        lemma_held_by_remove(m, who.drop_last(), i, r);
    }
}

/// Rows listed at most once hold no more than the whole column.
pub proof fn lemma_held_by_bounded(m: Seq<Seq<usize>>, who: Seq<int>, r: int)
    requires
        distinct_rows(who, m.len() as int),
    ensures
        held_by(m, who, r) <= column_sum(m, r),
    decreases m.len(),
{
    if m.len() == 0 {
        if who.len() > 0 {
            let first = who[0];
            assert(0 <= first < m.len());
        }
    } else {
        let top = m.len() - 1;
        let rest = m.drop_last();
        if who.contains(top) {
            let i = choose|i: int| 0 <= i < who.len() && who[i] == top;
            let others = who.remove(i);
            assert(distinct_rows(others, rest.len() as int)) by {
                assert forall|k: int| #![trigger others[k]] 0 <= k < others.len() implies 0
                    <= others[k] < rest.len() by {
                    if k < i {
                        assert(others[k] == who[k]);
                    } else {
                        assert(others[k] == who[k + 1]);
                    }
                }
                assert forall|j: int, k: int|
                    0 <= j < others.len() && 0 <= k < others.len() && j != k implies others[j]
                    != others[k] by {
                    let jj = if j < i { j } else { j + 1 };
                    let kk = if k < i { k } else { k + 1 };
                    assert(others[j] == who[jj] && others[k] == who[kk]);
                }
            }
            lemma_held_by_remove(m, who, i, r);
            lemma_held_by_agrees(m, rest, others, r);
            lemma_held_by_bounded(rest, others, r);
        } else {
            assert(distinct_rows(who, rest.len() as int)) by {
                assert forall|k: int| #![trigger who[k]] 0 <= k < who.len() implies 0 <= who[k]
                    < rest.len() by {
                    assert(who.contains(who[k]));
                }
            }
            lemma_held_by_agrees(m, rest, who, r);
            lemma_held_by_bounded(rest, who, r);
        }
    }
}

/// Rows listed at most once, all of them also in `all`, hold no more than
/// the rows of `all`.
pub proof fn lemma_held_by_subset(m: Seq<Seq<usize>>, part: Seq<int>, all: Seq<int>, r: int)
    requires
        part.no_duplicates(),
        forall|k: int| 0 <= k < part.len() ==> all.contains(#[trigger] part[k]),
    ensures
        held_by(m, part, r) <= held_by(m, all, r),
    decreases all.len(),
{
    if all.len() == 0 {
        if part.len() > 0 {
            assert(all.contains(part[0]));
        }
    } else {
        let x = all.last();
        let rest = all.drop_last();
        if part.contains(x) {
            let i = choose|i: int| 0 <= i < part.len() && part[i] == x;
            let others = part.remove(i);
            assert(others.no_duplicates()) by {
                assert forall|j: int, k: int|
                    0 <= j < others.len() && 0 <= k < others.len() && j != k implies others[j]
                    != others[k] by {
                    let jj = if j < i { j } else { j + 1 };
                    let kk = if k < i { k } else { k + 1 };
                    assert(others[j] == part[jj] && others[k] == part[kk]);
                }
            }
            assert forall|k: int| 0 <= k < others.len() implies rest.contains(
                #[trigger] others[k],
            ) by {
                let kk = if k < i { k } else { k + 1 };
                assert(others[k] == part[kk]);
                assert(all.contains(part[kk]));
                let w = choose|w: int| 0 <= w < all.len() && all[w] == part[kk];
                assert(w != all.len() - 1);
                assert(rest[w] == others[k]);
            }
            lemma_held_by_remove(m, part, i, r);
            lemma_held_by_subset(m, others, rest, r);
        } else {
            assert forall|k: int| 0 <= k < part.len() implies rest.contains(#[trigger] part[k]) by {
                assert(all.contains(part[k]));
                assert(part.contains(part[k]));
                let w = choose|w: int| 0 <= w < all.len() && all[w] == part[k];
                assert(rest[w] == part[k]);
            }
            lemma_held_by_subset(m, part, rest, r);
        }
    }
}

/// Two different rows together hold no more than the whole column.
pub proof fn lemma_two_rows_bounded(m: Seq<Seq<usize>>, t1: int, t2: int, r: int)
    requires
        0 <= t1 < m.len(),
        0 <= t2 < m.len(),
        t1 != t2,
    ensures
        m[t1][r] + m[t2][r] <= column_sum(m, r),
{
    let who = seq![t1, t2];
    assert(who.drop_last() =~= seq![t1]);
    assert(who.drop_last().drop_last() =~= Seq::<int>::empty());
    assert(held_by(m, who, r) == held_by(m, seq![t1], r) + m[t2][r]);
    assert(held_by(m, seq![t1], r) == held_by(m, Seq::<int>::empty(), r) + m[t1][r]);
    lemma_held_by_bounded(m, who, r);
}

/// One row holds no more than the whole column.
pub proof fn lemma_row_bounded(m: Seq<Seq<usize>>, t: int, r: int)
    requires
        0 <= t < m.len(),
    ensures
        m[t][r] <= column_sum(m, r),
{
    let who = seq![t];
    assert(who.drop_last() =~= Seq::<int>::empty());
    assert(held_by(m, who, r) == held_by(m, Seq::<int>::empty(), r) + m[t][r]);
    lemma_held_by_bounded(m, who, r);
}

} // verus!
