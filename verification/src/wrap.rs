//! Wrap-around of mathematical integers into 32 bits.
//!
//! The library's arithmetic never fails on overflow: a result that does not
//! fit is reduced modulo 2^32 into the range of its type. These functions
//! say which value that is.

use vstd::prelude::*;

verus! {

/// The number of values of a 32-bit integer, 2^32.
pub open spec fn modulus() -> int {
    0x1_0000_0000
}

/// The value in `0 ..= u32::MAX` that is congruent to `x` modulo 2^32.
pub open spec fn wrap_u32(x: int) -> int {
    x % modulus()
}

/// The value in `i32::MIN ..= i32::MAX` that is congruent to `x` modulo 2^32.
pub open spec fn wrap_i32(x: int) -> int {
    let r = x % modulus();
    if r > i32::MAX {
        r - modulus()
    } else {
        r
    }
}

/// Wrapping into `u32` yields a `u32`, changes its argument by a multiple of
/// 2^32, and leaves a value that already fits unchanged.
pub proof fn lemma_wrap_u32(x: int)
    ensures
        0 <= wrap_u32(x) <= u32::MAX,
        (x - wrap_u32(x)) % modulus() == 0,
        0 <= x <= u32::MAX ==> wrap_u32(x) == x,
{
}

/// Wrapping into `i32` yields an `i32`, changes its argument by a multiple of
/// 2^32, and leaves a value that already fits unchanged.
pub proof fn lemma_wrap_i32(x: int)
    ensures
        i32::MIN <= wrap_i32(x) <= i32::MAX,
        (x - wrap_i32(x)) % modulus() == 0,
        i32::MIN <= x <= i32::MAX ==> wrap_i32(x) == x,
{
}

} // verus!
