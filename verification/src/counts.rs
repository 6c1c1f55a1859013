//! A dense tally over (state, age class) with its marginal totals kept in step.

use vstd::prelude::*;
use crate::sums::{
    column, column_sums, grand_sum, lemma_column_sums_total, lemma_column_with_entry,
    lemma_grand_sum_bounds_row, lemma_grand_sum_with_entry, lemma_row_sums_total,
    lemma_sum_bounds_entry, lemma_sum_update, lemma_zeros, rectangular, row_sums, sum, sum_int,
    with_entry, zeros,
};

verus! {

/// How many individuals are in each state and age class, with the totals by
/// state, by age class and overall.
#[derive(Debug, Clone)]
pub struct Counts {
    total: usize,
    total_by_state: Vec<usize>,
    total_by_ageclass: Vec<usize>,
    counts: Vec<Vec<usize>>,
}

impl View for Counts {
    type V = Seq<Seq<usize>>;

    /// The tally as a matrix: one row per state, one column per age class.
    closed spec fn view(&self) -> Seq<Seq<usize>> {
        Seq::new(self.counts@.len(), |s: int| self.counts@[s]@)
    }
}

impl Counts {
    /// The number of states.
    pub closed spec fn n_states(&self) -> nat {
        self.total_by_state@.len()
    }

    /// The number of age classes.
    pub closed spec fn n_ageclasses(&self) -> nat {
        self.total_by_ageclass@.len()
    }

    /// The stored overall total.
    pub closed spec fn spec_total(&self) -> int {
        self.total as int
    }

    /// The stored total of a state.
    pub closed spec fn spec_total_for_state(&self, state: int) -> int {
        self.total_by_state@[state] as int
    }

    /// The stored total of an age class.
    pub closed spec fn spec_total_for_ageclass(&self, ageclass: int) -> int {
        self.total_by_ageclass@[ageclass] as int
    }

    /// The matrix has one row per state and one column per age class, and each
    /// stored total is the sum of the entries it stands for.
    pub closed spec fn wf(&self) -> bool {
        &&& self.counts@.len() == self.total_by_state@.len()
        &&& rectangular(self@, self.total_by_ageclass@.len())
        &&& self.total == grand_sum(self@)
        &&& forall|s: int|
            0 <= s < self.total_by_state@.len() ==> (#[trigger] self.total_by_state@[s]) == sum(
                self@[s],
            )
        &&& forall|a: int|
            0 <= a < self.total_by_ageclass@.len() ==> (#[trigger] self.total_by_ageclass@[a])
                == sum(column(self@, a))
    }

    /// What well-formedness means, in terms of the matrix.
    pub proof fn lemma_wf(&self)
        requires
            self.wf(),
        ensures
            self@.len() == self.n_states(),
            rectangular(self@, self.n_ageclasses()),
            self.spec_total() == grand_sum(self@),
            0 <= self.spec_total() <= usize::MAX,
            forall|s: int|
                0 <= s < self.n_states() ==> #[trigger] self.spec_total_for_state(s) == sum(
                    self@[s],
                ),
            forall|a: int|
                0 <= a < self.n_ageclasses() ==> #[trigger] self.spec_total_for_ageclass(a) == sum(
                    column(self@, a),
                ),
    {
    }

    /// The totals by state add up to the overall total, and so do the totals by age class.
    pub proof fn lemma_marginals_agree(&self)
        requires
            self.wf(),
        ensures
            sum_int(Seq::new(self.n_states(), |s: int| self.spec_total_for_state(s)))
                == self.spec_total(),
            sum_int(Seq::new(self.n_ageclasses(), |a: int| self.spec_total_for_ageclass(a)))
                == self.spec_total(),
    {
        lemma_row_sums_total(self@);
        lemma_column_sums_total(self@, self.n_ageclasses());
        assert(Seq::new(self.n_states(), |s: int| self.spec_total_for_state(s)) =~= row_sums(
            self@,
        ));
        assert(Seq::new(self.n_ageclasses(), |a: int| self.spec_total_for_ageclass(a))
            =~= column_sums(self@, self.n_ageclasses()));
    }

    /// An all-zero tally of `n_states` states and `n_ageclasses` age classes.
    pub fn new(n_states: usize, n_ageclasses: usize) -> (c: Counts)
        ensures
            c.wf(),
            c.n_states() == n_states,
            c.n_ageclasses() == n_ageclasses,
            c@ == zeros(n_states as nat, n_ageclasses as nat),
            c.spec_total() == 0,
    {
        let mut counts: Vec<Vec<usize>> = Vec::new();
        let mut s: usize = 0;
        while s < n_states
            invariant
                s <= n_states,
                counts@.len() == s,
                forall|i: int|
                    0 <= i < s ==> (#[trigger] counts@[i])@ == Seq::new(
                        n_ageclasses as nat,
                        |a: int| 0usize,
                    ),
            decreases n_states - s,
        {
            counts.push(zero_row(n_ageclasses));
            s += 1;
        }
        let c = Counts {
            total: 0,
            total_by_state: zero_row(n_states),
            total_by_ageclass: zero_row(n_ageclasses),
            counts,
        };
        proof {
            assert(c@ =~= zeros(n_states as nat, n_ageclasses as nat));
            lemma_zeros(n_states as nat, n_ageclasses as nat);
        }
        c
    }

    /// The number of states and the number of age classes.
    pub fn shape(&self) -> (r: (usize, usize))
        ensures
            r.0 == self.n_states(),
            r.1 == self.n_ageclasses(),
    {
        (self.total_by_state.len(), self.total_by_ageclass.len())
    }

    /// The count in `state` and `ageclass`.
    pub fn get(&self, state: usize, ageclass: usize) -> (n: usize)
        requires
            self.wf(),
            state < self.n_states(),
            ageclass < self.n_ageclasses(),
        ensures
            n == self@[state as int][ageclass as int],
    {
        assert(self@[state as int].len() == self.n_ageclasses());
        self.counts[state][ageclass]
    }

    /// Adds `amount` to the count in `state` and `ageclass`, and to the three
    /// totals that cover it.
    pub fn increment(&mut self, state: usize, ageclass: usize, amount: usize)
        requires
            old(self).wf(),
            state < old(self).n_states(),
            ageclass < old(self).n_ageclasses(),
            old(self).spec_total() + amount <= usize::MAX,
        ensures
            final(self).wf(),
            final(self).n_states() == old(self).n_states(),
            final(self).n_ageclasses() == old(self).n_ageclasses(),
            final(self)@ == with_entry(
                old(self)@,
                state as int,
                ageclass as int,
                (old(self)@[state as int][ageclass as int] + amount) as usize,
            ),
            final(self).spec_total() == old(self).spec_total() + amount,
    {
        let ghost m = self@;
        let ghost si = state as int;
        let ghost age_i = ageclass as int;
        proof {
            assert(m[si].len() == self.n_ageclasses());
            lemma_sum_bounds_entry(m[si], age_i);
            lemma_sum_bounds_entry(column(m, age_i), si);
            lemma_grand_sum_bounds_row(m, si);
            lemma_column_sums_bound(m, self.n_ageclasses(), age_i);
        }
        let v: usize = self.counts[state][ageclass] + amount;
        self.counts[state][ageclass] = v;
        self.total += amount;
        self.total_by_state[state] += amount;
        self.total_by_ageclass[ageclass] += amount;
        proof {
            assert(self@ =~= with_entry(m, si, age_i, v));
            lemma_entry_effects(m, self.n_ageclasses(), si, age_i, v);
        }
    }

    /// Takes `amount` from the count in `state` and `ageclass`, and from the
    /// three totals that cover it.
    pub fn decrement(&mut self, state: usize, ageclass: usize, amount: usize)
        requires
            old(self).wf(),
            state < old(self).n_states(),
            ageclass < old(self).n_ageclasses(),
            amount <= old(self)@[state as int][ageclass as int],
        ensures
            final(self).wf(),
            final(self).n_states() == old(self).n_states(),
            final(self).n_ageclasses() == old(self).n_ageclasses(),
            final(self)@ == with_entry(
                old(self)@,
                state as int,
                ageclass as int,
                (old(self)@[state as int][ageclass as int] - amount) as usize,
            ),
            final(self).spec_total() == old(self).spec_total() - amount,
    {
        let ghost m = self@;
        let ghost si = state as int;
        let ghost age_i = ageclass as int;
        proof {
            assert(m[si].len() == self.n_ageclasses());
            lemma_sum_bounds_entry(m[si], age_i);
            lemma_sum_bounds_entry(column(m, age_i), si);
            lemma_grand_sum_bounds_row(m, si);
        }
        let v: usize = self.counts[state][ageclass] - amount;
        self.counts[state][ageclass] = v;
        self.total -= amount;
        self.total_by_state[state] -= amount;
        self.total_by_ageclass[ageclass] -= amount;
        proof {
            assert(self@ =~= with_entry(m, si, age_i, v));
            lemma_entry_effects(m, self.n_ageclasses(), si, age_i, v);
        }
    }

    /// Moves one individual of `ageclass` from `from_state` to `to_state`.
    /// The overall total and the totals by age class stay as they are.
    pub fn transition(&mut self, from_state: usize, to_state: usize, ageclass: usize)
        requires
            old(self).wf(),
            from_state < old(self).n_states(),
            to_state < old(self).n_states(),
            ageclass < old(self).n_ageclasses(),
            old(self)@[from_state as int][ageclass as int] >= 1,
        ensures
            final(self).wf(),
            final(self).n_states() == old(self).n_states(),
            final(self).n_ageclasses() == old(self).n_ageclasses(),
            final(self)@ == moved(old(self)@, from_state as int, to_state as int, ageclass as int),
            final(self).spec_total() == old(self).spec_total(),
            forall|a: int|
                0 <= a < old(self).n_ageclasses() ==> final(self).spec_total_for_ageclass(a)
                    == old(self).spec_total_for_ageclass(a),
    {
        let ghost m = self@;
        let ghost fi = from_state as int;
        let ghost ti = to_state as int;
        let ghost age_i = ageclass as int;
        let ghost width = self.n_ageclasses();
        proof {
            assert(m[fi].len() == width);
            assert(m[ti].len() == width);
            lemma_sum_bounds_entry(m[fi], age_i);
        }
        let v: usize = self.counts[from_state][ageclass] - 1;
        self.counts[from_state][ageclass] = v;
        self.total_by_state[from_state] -= 1;
        let ghost m1 = self@;
        proof {
            assert(m1 =~= with_entry(m, fi, age_i, v));
            lemma_entry_effects(m, width, fi, age_i, v);
            assert(m1[ti].len() == width);
            lemma_sum_bounds_entry(m1[ti], age_i);
            lemma_grand_sum_bounds_row(m1, ti);
        }
        let w: usize = self.counts[to_state][ageclass] + 1;
        self.counts[to_state][ageclass] = w;
        self.total_by_state[to_state] += 1;
        proof {
            assert(self@ =~= with_entry(m1, ti, age_i, w));
            lemma_entry_effects(m1, width, ti, age_i, w);
        }
    }

    /// The overall total.
    pub fn total(&self) -> (n: usize)
        ensures
            n == self.spec_total(),
    {
        self.total
    }

    /// The total of `state` over all age classes.
    pub fn total_for_state(&self, state: usize) -> (n: usize)
        requires
            state < self.n_states(),
        ensures
            n == self.spec_total_for_state(state as int),
    {
        self.total_by_state[state]
    }

    /// The total of `ageclass` over all states.
    pub fn total_for_ageclass(&self, ageclass: usize) -> (n: usize)
        requires
            ageclass < self.n_ageclasses(),
        ensures
            n == self.spec_total_for_ageclass(ageclass as int),
    {
        self.total_by_ageclass[ageclass]
    }
}

/// `m` after one individual of age class `a` has moved from state `from` to state `to`.
pub open spec fn moved(m: Seq<Seq<usize>>, from: int, to: int, a: int) -> Seq<Seq<usize>> {
    let m1 = with_entry(m, from, a, (m[from][a] - 1) as usize);
    with_entry(m1, to, a, (m1[to][a] + 1) as usize)
}

/// No column sum of a rectangular matrix exceeds the grand sum.
pub proof fn lemma_column_sums_bound(m: Seq<Seq<usize>>, width: nat, a: int)
    requires
        rectangular(m, width),
        0 <= a < width,
    ensures
        sum(column(m, a)) <= grand_sum(m),
    decreases m.len(),
{
    if m.len() == 0 {
    } else {
        let head = m.drop_last();
        lemma_column_sums_bound(head, width, a);
        assert(column(m, a).drop_last() =~= column(head, a));
        lemma_sum_bounds_entry(m.last(), a);
    }
}

/// What replacing entry `(s, a)` by `v` does to the shape and to every sum.
pub proof fn lemma_entry_effects(m: Seq<Seq<usize>>, width: nat, s: int, a: int, v: usize)
    requires
        rectangular(m, width),
        0 <= s < m.len(),
        0 <= a < width,
    ensures
        rectangular(with_entry(m, s, a, v), width),
        grand_sum(with_entry(m, s, a, v)) == grand_sum(m) - m[s][a] + v,
        sum(with_entry(m, s, a, v)[s]) == sum(m[s]) - m[s][a] + v,
        sum(column(with_entry(m, s, a, v), a)) == sum(column(m, a)) - m[s][a] + v,
        forall|r: int| 0 <= r < m.len() && r != s ==> with_entry(m, s, a, v)[r] == m[r],
        forall|b: int|
            0 <= b < width && b != a ==> column(with_entry(m, s, a, v), b) == column(m, b),
{
    lemma_grand_sum_with_entry(m, s, a, v);
    lemma_sum_update(m[s], a, v);
    lemma_column_with_entry(m, s, a, v, a);
    lemma_sum_update(column(m, a), s, v);
    assert forall|b: int| 0 <= b < width && b != a implies column(with_entry(m, s, a, v), b)
        == column(m, b) by {
        lemma_column_with_entry(m, s, a, v, b);
    }
}

fn zero_row(n: usize) -> (row: Vec<usize>)
    ensures
        row@ == Seq::new(n as nat, |a: int| 0usize),
{
    let mut row: Vec<usize> = Vec::new();
    let mut i: usize = 0;
    while i < n
        invariant
            i <= n,
            row@.len() == i,
            forall|j: int| 0 <= j < i ==> row@[j] == 0,
        decreases n - i,
    {
        row.push(0);
        i += 1;
    }
    assert(row@ =~= Seq::new(n as nat, |a: int| 0usize));
    row
}

} // verus!
