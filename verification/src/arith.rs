//! Integer helpers shared by the contracts.

use vstd::prelude::*;

verus! {

/// Rust's integer division, which truncates toward zero.
pub open spec fn trunc_div(x: int, d: int) -> int
    recommends
        d != 0,
{
    if x == 0 {
        0
    } else if x > 0 && d > 0 {
        x / d
    } else if x < 0 && d < 0 {
        (x * -1) / (d * -1)
    } else if x < 0 {
        ((x * -1) / d) * -1
    } else {
        (x / (d * -1)) * -1
    }
}

pub open spec fn in_i128(x: int) -> bool {
    i128::MIN <= x <= i128::MAX
}

/// Truncating division by a positive divisor.
pub fn div_pos(x: i128, d: i128) -> (r: i128)
    requires
        d > 0,
    ensures
        r == trunc_div(x as int, d as int),
{
    x / d
}

} // verus!
