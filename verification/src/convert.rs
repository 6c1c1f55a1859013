//! Integer conversions used where rows leave the engine.

use vstd::prelude::*;

verus! {

/// Converts a count or index to the signed 64-bit integer stored in a row.
pub fn to_i64(x: usize) -> (r: i64)
    requires
        x <= i64::MAX,
    ensures
        r == x,
{
    x as i64
}

} // verus!
