//! Arithmetic and membership helpers of the governance contract.

use vstd::prelude::*;
use crate::arith::{trunc_div, div_pos};
use crate::AccountId;

verus! {

/// Adds two amounts.  The sum must fit in an `i128`; outside that range the
/// operation has no result.
pub fn safe_add(a: i128, b: i128) -> (r: i128)
    requires
        i128::MIN <= a + b <= i128::MAX,
    ensures
        r == a + b,
{
    a + b
}

/// Subtracts `b` from `a`.  The difference must fit in an `i128`.
pub fn safe_sub(a: i128, b: i128) -> (r: i128)
    requires
        i128::MIN <= a - b <= i128::MAX,
    ensures
        r == a - b,
{
    a - b
}

/// The basis-point share of an amount, `amount * bps / 10000`, rounded toward
/// zero.  The product must fit in an `i128`.
pub fn calculate_bps(amount: i128, bps: i128) -> (r: i128)
    requires
        i128::MIN <= amount * bps <= i128::MAX,
    ensures
        r == trunc_div(amount * bps, 10000),
{
    div_pos(amount * bps, 10000)
}

/// Whether every target lies in the whitelist.
pub fn verify_targets(targets: &[AccountId], whitelist: &[AccountId]) -> (r: bool)
    ensures
        r == (forall|i: int| 0 <= i < targets@.len() ==> whitelist@.contains(#[trigger] targets@[i])),
{
    let mut i: usize = 0;
    while i < targets.len()
        invariant
            i <= targets@.len(),
            forall|k: int| 0 <= k < i ==> whitelist@.contains(#[trigger] targets@[k]),
        decreases targets@.len() - i,
    {
        let t = targets[i];
        let mut found = false;
        let mut j: usize = 0;
        while j < whitelist.len()
            invariant
                j <= whitelist@.len(),
                found <==> exists|k: int| 0 <= k < j && whitelist@[k] == t,
            decreases whitelist@.len() - j,
        {
            if whitelist[j] == t {
                found = true;
            }
            j = j + 1;
        }
        if !found {
            assert(!whitelist@.contains(targets@[i as int]));
            return false;
        }
        i = i + 1;
    }
    true
}

} // verus!
