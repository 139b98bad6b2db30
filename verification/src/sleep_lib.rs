//! What the sample plugin computes.
use vstd::prelude::*;

verus! {

/// The sum of two numbers, where it is one of the type.
pub fn adding(a: i32, b: i32) -> (sum: i32)
    requires
        i32::MIN <= a + b <= i32::MAX,
    ensures
        sum == a + b,
{
    a + b
}

} // verus!
