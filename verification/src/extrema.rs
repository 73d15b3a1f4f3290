//! The larger and the smaller of two signed integers.

use vstd::prelude::*;

verus! {

/// The larger of two integers.
pub open spec fn larger(a: int, b: int) -> int {
    if a > b {
        a
    } else {
        b
    }
}

/// The smaller of two integers.
pub open spec fn smaller(a: int, b: int) -> int {
    if a < b {
        a
    } else {
        b
    }
}

/// The larger and the smaller of a number and itself are that number:
/// `max(a, a) == min(a, a) == a`.
pub proof fn lemma_larger_smaller_of_same(a: int)
    ensures
        larger(a, a) == a,
        smaller(a, a) == a,
{
}

/// Returns the larger of `a` and `b`.
pub fn max(a: i32, b: i32) -> (m: i32)
    ensures
        m == larger(a as int, b as int),
        m >= a,
        m >= b,
        m == a || m == b,
{
    if a > b {
        a
    } else {
        b
    }
}

/// Returns the smaller of `a` and `b`.
pub fn min(a: i32, b: i32) -> (m: i32)
    ensures
        m == smaller(a as int, b as int),
        m <= a,
        m <= b,
        m == a || m == b,
{
    if a < b {
        a
    } else {
        b
    }
}

} // verus!
