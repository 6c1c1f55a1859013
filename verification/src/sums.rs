//! Finite sums over sequences and over the rows and columns of a matrix.

use vstd::prelude::*;

verus! {

/// The sum of the entries of `s`.
pub open spec fn sum(s: Seq<usize>) -> int
    decreases s.len(),
{
    if s.len() == 0 {
        0
    } else {
        sum(s.drop_last()) + s.last()
    }
}

/// Every row of `m` has `width` entries.
pub open spec fn rectangular(m: Seq<Seq<usize>>, width: nat) -> bool {
    forall|s: int| 0 <= s < m.len() ==> (#[trigger] m[s]).len() == width
}

/// Column `a` of `m`, top to bottom.
pub open spec fn column(m: Seq<Seq<usize>>, a: int) -> Seq<usize> {
    Seq::new(m.len(), |s: int| m[s][a])
}

/// The sum of all entries of `m`, row by row.
pub open spec fn grand_sum(m: Seq<Seq<usize>>) -> int
    decreases m.len(),
{
    if m.len() == 0 {
        0
    } else {
        grand_sum(m.drop_last()) + sum(m.last())
    }
}

/// `m` with entry `(s, a)` replaced by `v`.
pub open spec fn with_entry(m: Seq<Seq<usize>>, s: int, a: int, v: usize) -> Seq<Seq<usize>> {
    m.update(s, m[s].update(a, v))
}

/// A matrix of `rows` rows and `width` columns holding zero everywhere.
pub open spec fn zeros(rows: nat, width: nat) -> Seq<Seq<usize>> {
    Seq::new(rows, |s: int| Seq::new(width, |a: int| 0usize))
}

/// A sum of counts is not negative.
pub proof fn lemma_sum_nonnegative(s: Seq<usize>)
    ensures
        sum(s) >= 0,
    decreases s.len(),
{
    if s.len() > 0 {
        lemma_sum_nonnegative(s.drop_last());
    }
}

/// No entry exceeds the sum.
pub proof fn lemma_sum_bounds_entry(s: Seq<usize>, i: int)
    requires
        0 <= i < s.len(),
    ensures
        s[i] <= sum(s),
    decreases s.len(),
{
    lemma_sum_nonnegative(s.drop_last());
    if i < s.len() - 1 {
        lemma_sum_bounds_entry(s.drop_last(), i);
    }
}

/// Replacing one entry moves the sum by the difference.
pub proof fn lemma_sum_update(s: Seq<usize>, i: int, v: usize)
    requires
        0 <= i < s.len(),
    ensures
        sum(s.update(i, v)) == sum(s) - s[i] + v,
    decreases s.len(),
{
    let t = s.update(i, v);
    if i == s.len() - 1 {
        assert(t.drop_last() =~= s.drop_last());
    } else {
        lemma_sum_update(s.drop_last(), i, v);
        assert(t.drop_last() =~= s.drop_last().update(i, v));
    }
}

/// A sequence of zeros adds up to zero.
pub proof fn lemma_sum_all_zero(s: Seq<usize>)
    requires
        forall|i: int| 0 <= i < s.len() ==> s[i] == 0,
    ensures
        sum(s) == 0,
    decreases s.len(),
{
    if s.len() > 0 {
        lemma_sum_all_zero(s.drop_last());
    }
}

/// A grand sum of counts is not negative.
pub proof fn lemma_grand_sum_nonnegative(m: Seq<Seq<usize>>)
    ensures
        grand_sum(m) >= 0,
    decreases m.len(),
{
    if m.len() > 0 {
        lemma_grand_sum_nonnegative(m.drop_last());
        lemma_sum_nonnegative(m.last());
    }
}

/// No row sum exceeds the grand sum.
pub proof fn lemma_grand_sum_bounds_row(m: Seq<Seq<usize>>, s: int)
    requires
        0 <= s < m.len(),
    ensures
        sum(m[s]) <= grand_sum(m),
    decreases m.len(),
{
    lemma_grand_sum_nonnegative(m.drop_last());
    lemma_sum_nonnegative(m.last());
    if s < m.len() - 1 {
        lemma_grand_sum_bounds_row(m.drop_last(), s);
    }
}

/// Replacing one row moves the grand sum by the difference of the row sums.
pub proof fn lemma_grand_sum_update(m: Seq<Seq<usize>>, s: int, row: Seq<usize>)
    requires
        0 <= s < m.len(),
    ensures
        grand_sum(m.update(s, row)) == grand_sum(m) - sum(m[s]) + sum(row),
    decreases m.len(),
{
    let t = m.update(s, row);
    if s == m.len() - 1 {
        assert(t.drop_last() =~= m.drop_last());
    } else {
        lemma_grand_sum_update(m.drop_last(), s, row);
        assert(t.drop_last() =~= m.drop_last().update(s, row));
    }
}

/// Replacing one entry moves the grand sum by the difference.
pub proof fn lemma_grand_sum_with_entry(m: Seq<Seq<usize>>, s: int, a: int, v: usize)
    requires
        0 <= s < m.len(),
        0 <= a < m[s].len(),
    ensures
        grand_sum(with_entry(m, s, a, v)) == grand_sum(m) - m[s][a] + v,
{
    lemma_sum_update(m[s], a, v);
    lemma_grand_sum_update(m, s, m[s].update(a, v));
}

/// Replacing one entry replaces that entry of its column and leaves the other columns alone.
pub proof fn lemma_column_with_entry(m: Seq<Seq<usize>>, s: int, a: int, v: usize, b: int)
    requires
        0 <= s < m.len(),
        0 <= a < m[s].len(),
    ensures
        b == a ==> column(with_entry(m, s, a, v), b) == column(m, a).update(s, v),
        b != a && 0 <= b < m[s].len() ==> column(with_entry(m, s, a, v), b) == column(m, b),
{
    if b == a {
        assert(column(with_entry(m, s, a, v), b) =~= column(m, a).update(s, v));
    } else if 0 <= b < m[s].len() {
        assert(column(with_entry(m, s, a, v), b) =~= column(m, b));
    }
}

/// The grand sum of a zero matrix is zero, as is each of its row and column sums.
pub proof fn lemma_zeros(rows: nat, width: nat)
    ensures
        grand_sum(zeros(rows, width)) == 0,
        forall|s: int| 0 <= s < rows ==> sum(#[trigger] zeros(rows, width)[s]) == 0,
        forall|a: int| 0 <= a < width ==> sum(#[trigger] column(zeros(rows, width), a)) == 0,
    decreases rows,
{
    let z = zeros(rows, width);
    assert forall|s: int| 0 <= s < rows implies sum(#[trigger] z[s]) == 0 by {
        lemma_sum_all_zero(z[s]);
    }
    assert forall|a: int| 0 <= a < width implies sum(#[trigger] column(z, a)) == 0 by {
        lemma_sum_all_zero(column(z, a));
    }
    if rows > 0 {
        lemma_zeros((rows - 1) as nat, width);
        assert(z.drop_last() =~= zeros((rows - 1) as nat, width));
    }
}

/// A sequence that is entry by entry at most another has at most its sum.
pub proof fn lemma_sum_monotone(x: Seq<usize>, y: Seq<usize>)
    requires
        x.len() == y.len(),
        forall|i: int| 0 <= i < x.len() ==> x[i] <= y[i],
    ensures
        sum(x) <= sum(y),
    decreases x.len(),
{
    if x.len() > 0 {
        lemma_sum_monotone(x.drop_last(), y.drop_last());
    }
}

/// A matrix that is entry by entry at most another has at most its grand sum.
pub proof fn lemma_grand_sum_monotone(x: Seq<Seq<usize>>, y: Seq<Seq<usize>>, width: nat)
    requires
        x.len() == y.len(),
        rectangular(x, width),
        rectangular(y, width),
        forall|s: int, a: int| 0 <= s < x.len() && 0 <= a < width ==> x[s][a] <= y[s][a],
    ensures
        grand_sum(x) <= grand_sum(y),
    decreases x.len(),
{
    if x.len() > 0 {
        lemma_grand_sum_monotone(x.drop_last(), y.drop_last(), width);
        assert forall|a: int| 0 <= a < x.last().len() implies x.last()[a] <= y.last()[a] by {
            assert(x[x.len() - 1][a] <= y[x.len() - 1][a]);
        }
        lemma_sum_monotone(x.last(), y.last());
    }
}

/// The column sums of `m`, left to right, as far as column `width`.
pub open spec fn column_sums(m: Seq<Seq<usize>>, width: nat) -> Seq<int> {
    Seq::new(width, |a: int| sum(column(m, a)))
}

/// The row sums of `m`, top to bottom.
pub open spec fn row_sums(m: Seq<Seq<usize>>) -> Seq<int> {
    Seq::new(m.len(), |s: int| sum(m[s]))
}

/// The sum of the entries of a sequence of integers.
pub open spec fn sum_int(s: Seq<int>) -> int
    decreases s.len(),
{
    if s.len() == 0 {
        0
    } else {
        sum_int(s.drop_last()) + s.last()
    }
}

/// Adding the row sums gives the grand sum.
pub proof fn lemma_row_sums_total(m: Seq<Seq<usize>>)
    ensures
        sum_int(row_sums(m)) == grand_sum(m),
    decreases m.len(),
{
    if m.len() > 0 {
        lemma_row_sums_total(m.drop_last());
        assert(row_sums(m).drop_last() =~= row_sums(m.drop_last()));
    }
}

proof fn lemma_sum_int_all_zero(s: Seq<int>)
    requires
        forall|i: int| 0 <= i < s.len() ==> s[i] == 0,
    ensures
        sum_int(s) == 0,
    decreases s.len(),
{
    if s.len() > 0 {
        lemma_sum_int_all_zero(s.drop_last());
    }
}

proof fn lemma_sum_int_pointwise(x: Seq<int>, y: Seq<int>, z: Seq<int>)
    requires
        x.len() == y.len(),
        x.len() == z.len(),
        forall|i: int| 0 <= i < x.len() ==> z[i] == x[i] + y[i],
    ensures
        sum_int(z) == sum_int(x) + sum_int(y),
    decreases x.len(),
{
    if x.len() > 0 {
        lemma_sum_int_pointwise(x.drop_last(), y.drop_last(), z.drop_last());
    }
}

proof fn lemma_sum_as_sum_int(s: Seq<usize>)
    ensures
        sum(s) == sum_int(Seq::new(s.len(), |i: int| s[i] as int)),
    decreases s.len(),
{
    let t = Seq::new(s.len(), |i: int| s[i] as int);
    if s.len() > 0 {
        lemma_sum_as_sum_int(s.drop_last());
        assert(t.drop_last() =~= Seq::new(s.drop_last().len(), |i: int| s.drop_last()[i] as int));
    }
}

/// Adding the column sums of a rectangular matrix gives the grand sum.
pub proof fn lemma_column_sums_total(m: Seq<Seq<usize>>, width: nat)
    requires
        rectangular(m, width),
    ensures
        sum_int(column_sums(m, width)) == grand_sum(m),
    decreases m.len(),
{
    if m.len() == 0 {
        lemma_sum_int_all_zero(column_sums(m, width));
    } else {
        let head = m.drop_last();
        let last = m.last();
        lemma_column_sums_total(head, width);
        lemma_sum_as_sum_int(last);
        let x = column_sums(head, width);
        let y = Seq::new(last.len(), |i: int| last[i] as int);
        let z = column_sums(m, width);
        assert forall|a: int| 0 <= a < width implies z[a] == x[a] + y[a] by {
            assert(column(m, a).drop_last() =~= column(head, a));
        }
        lemma_sum_int_pointwise(x, y, z);
    }
}

} // verus!
