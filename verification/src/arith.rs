//! Arithmetic on health and damage, which stops at the ends of `i32`
//! instead of wrapping around.

use vstd::prelude::*;

verus! {

/// `n` where it is an `i32`, else the nearest `i32`.
pub open spec fn clamp(n: int) -> int {
    if n < i32::MIN {
        i32::MIN as int
    } else if n > i32::MAX {
        i32::MAX as int
    } else {
        n
    }
}

/// The sum of `a` and `b`, clamped.
pub fn add_clamped(a: i32, b: i32) -> (r: i32)
    ensures
        r == clamp(a + b),
{
    let n: i64 = a as i64 + b as i64;
    if n < i32::MIN as i64 {
        i32::MIN
    } else if n > i32::MAX as i64 {
        i32::MAX
    } else {
        n as i32
    }
}

/// The difference of `a` and `b`, clamped.
pub fn sub_clamped(a: i32, b: i32) -> (r: i32)
    ensures
        r == clamp(a - b),
{
    let n: i64 = a as i64 - b as i64;
    if n < i32::MIN as i64 {
        i32::MIN
    } else if n > i32::MAX as i64 {
        i32::MAX
    } else {
        n as i32
    }
}

} // verus!
