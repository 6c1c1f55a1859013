//! Choosing an index from a cumulative distribution and a uniform draw.
//!
//! The draw and the cumulative probabilities are carried as `u64` values whose
//! integer order is the order of the probabilities they stand for.

use vstd::prelude::*;

verus! {

/// The first index from `i` on, below `n - 1`, whose cumulative probability
/// exceeds `u`; the last index `n - 1` if there is none.
pub open spec fn first_exceeding(u: u64, n: int, cdf: Seq<u64>, i: int) -> int
    decreases n - 1 - i,
{
    if i >= n - 1 {
        n - 1
    } else if u < cdf[i] {
        i
    } else {
        first_exceeding(u, n, cdf, i + 1)
    }
}

/// The index among `n` that the draw `u` selects under `cdf`.
pub open spec fn categorical(u: u64, n: int, cdf: Seq<u64>) -> int {
    first_exceeding(u, n, cdf, 0)
}

/// Whether choosing among `n` outcomes consumes a uniform draw: a single
/// outcome is chosen without one.
pub open spec fn spec_needs_uniform(n: usize) -> bool {
    n != 1
}

/// Whether choosing among `n` outcomes consumes a uniform draw.
#[verifier::when_used_as_spec(spec_needs_uniform)]
pub fn needs_uniform(n: usize) -> (b: bool)
    ensures
        b == spec_needs_uniform(n),
{
    n != 1
}

/// The scan from `i` ends at an index between `i` and `n - 1`; every index it
/// passed over has a cumulative probability at or below `u`; and unless it
/// ends at the last index, the cumulative probability there exceeds `u`.
pub proof fn lemma_first_exceeding(u: u64, n: int, cdf: Seq<u64>, i: int)
    requires
        0 <= i <= n - 1,
    ensures
        i <= first_exceeding(u, n, cdf, i) <= n - 1,
        forall|j: int| i <= j < first_exceeding(u, n, cdf, i) ==> cdf[j] <= u,
        first_exceeding(u, n, cdf, i) < n - 1 ==> u < cdf[first_exceeding(u, n, cdf, i)],
    decreases n - 1 - i,
{
    if i < n - 1 && !(u < cdf[i]) {
        lemma_first_exceeding(u, n, cdf, i + 1);
    }
}

/// Whatever the draw and the cumulative probabilities, the index chosen among
/// `n >= 1` outcomes is one of them.
pub proof fn lemma_categorical_in_range(u: u64, n: int, cdf: Seq<u64>)
    requires
        n >= 1,
    ensures
        0 <= categorical(u, n, cdf) < n,
{
    lemma_first_exceeding(u, n, cdf, 0);
}

/// A draw below the first cumulative probability selects the first outcome.
pub proof fn lemma_categorical_first(u: u64, n: int, cdf: Seq<u64>)
    requires
        n >= 1,
        n >= 2 ==> u < cdf[0],
    ensures
        categorical(u, n, cdf) == 0,
{
}

/// Only one index has all cumulative probabilities before it at or below `u`
/// and, unless it is the last, its own above `u`.
pub proof fn lemma_categorical_unique(u: u64, n: int, cdf: Seq<u64>, k: int)
    requires
        0 <= k < n,
        forall|j: int| 0 <= j < k ==> cdf[j] <= u,
        k < n - 1 ==> u < cdf[k],
    ensures
        categorical(u, n, cdf) == k,
{
    lemma_first_exceeding(u, n, cdf, 0);
}

/// Chooses an index among `n` outcomes: the smallest index whose cumulative
/// probability exceeds the draw `u`, the last index if none does. The final
/// cumulative probability may be left out of `cdf`; it counts as one.
pub fn draw_categorical(u: u64, n: usize, cdf: &Vec<u64>) -> (i: usize)
    requires
        n >= 1,
        cdf@.len() == n || cdf@.len() == n - 1,
    ensures
        i == categorical(u, n as int, cdf@),
        i < n,
{
    proof {
        lemma_first_exceeding(u, n as int, cdf@, 0);
    }
    let mut i: usize = 0;
    while i < n - 1
        invariant
            n >= 1,
            i <= n - 1,
            cdf@.len() == n || cdf@.len() == n - 1,
            first_exceeding(u, n as int, cdf@, i as int) == categorical(u, n as int, cdf@),
        decreases n - 1 - i,
    {
        if u < cdf[i] {
            return i;
        }
        i += 1;
    }
    n - 1
}

} // verus!
