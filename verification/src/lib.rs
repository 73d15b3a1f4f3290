//! A small arithmetic library over 32-bit integers.
//!
//! Every function is pure and total. Where a mathematical result does not
//! fit in 32 bits, the result wraps around (two's complement for `i32`,
//! modulo 2^32 for `u32`); no function panics.

pub mod arith;
pub mod extrema;
pub mod factorial;
pub mod primes;
pub mod wrap;

pub use arith::{add, divide, multiply, subtract};
pub use extrema::{max, min};
pub use factorial::factorial;
pub use primes::{integer_sqrt, is_prime};
