//! Arithmetic that stays within `i32`.

use vstd::prelude::*;

verus! {

/// `x` brought into the range of `i32`.
pub open spec fn clamp(x: int) -> int {
    if x < i32::MIN {
        i32::MIN as int
    } else if x > i32::MAX {
        i32::MAX as int
    } else {
        x
    }
}

/// `x` brought into the range of `i32`.
pub fn saturate(x: i64) -> (r: i32)
    ensures
        r == clamp(x as int),
{
    if x < -2147483648 {
        -2147483648
    } else if x > 2147483647 {
        2147483647
    } else {
        x as i32
    }
}

} // verus!
