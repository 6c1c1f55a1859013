//! Points on the simulation clock.
//!
//! A time is a non-negative real number or positive infinity. It is carried as
//! a `u64` whose integer order is the order of the times it stands for: the
//! bit pattern of the IEEE-754 double. The engine only ever compares times;
//! whoever produces them does the arithmetic.

use vstd::prelude::*;

verus! {

/// The time that is later than every finite time.
pub const INFINITY: u64 = 0x7FF0_0000_0000_0000;

/// The start of every run.
pub const ZERO: u64 = 0;

/// `t` stands for a time: it is not beyond infinity.
pub open spec fn is_time(t: u64) -> bool {
    t <= INFINITY
}

/// `t` stands for a finite time.
pub open spec fn spec_is_finite(t: u64) -> bool {
    t < INFINITY
}

/// Whether `t` stands for a finite time.
#[verifier::when_used_as_spec(spec_is_finite)]
pub fn is_finite(t: u64) -> (b: bool)
    ensures
        b == spec_is_finite(t),
{
    t < INFINITY
}

/// Every one of `times` stands for a finite time.
pub open spec fn all_finite(times: Seq<u64>) -> bool {
    forall|k: int| 0 <= k < times.len() ==> #[trigger] times[k] < INFINITY
}

/// Whether every one of `times` stands for a finite time.
pub fn are_finite(times: &Vec<u64>) -> (b: bool)
    ensures
        b == all_finite(times@),
{
    let mut k: usize = 0;
    while k < times.len()
        invariant
            k <= times@.len(),
            forall|j: int| 0 <= j < k ==> #[trigger] times@[j] < INFINITY,
        decreases times@.len() - k,
    {
        if !is_finite(times[k]) {
            return false;
        }
        k += 1;
    }
    true
}

} // verus!
