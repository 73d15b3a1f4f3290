//! The four basic operations on signed 32-bit integers.
//!
//! Sum, difference and product wrap around on overflow. The quotient is
//! absent for a zero divisor and otherwise truncates toward zero.

use vstd::prelude::*;
use crate::wrap::wrap_i32;

verus! {

/// The absolute value of an integer.
pub open spec fn magnitude(x: int) -> int {
    if x < 0 {
        -x
    } else {
        x
    }
}

/// The quotient of `a` by `b`, rounded toward zero: the quotient of the
/// magnitudes, negative where exactly one of `a` and `b` is negative.
pub open spec fn truncated_quotient(a: int, b: int) -> int
    recommends
        b != 0,
{
    if (a < 0) == (b < 0) {
        magnitude(a) / magnitude(b)
    } else {
        -(magnitude(a) / magnitude(b))
    }
}

/// `q` divides `a` by `b` with rounding toward zero: the remainder
/// `a - q * b` is smaller in magnitude than `b` and is zero or has the sign
/// of `a`.
pub open spec fn rounds_toward_zero(q: int, a: int, b: int) -> bool {
    &&& magnitude(a - q * b) < magnitude(b)
    &&& a >= 0 ==> a - q * b >= 0
    &&& a <= 0 ==> a - q * b <= 0
}

/// The truncated quotient by a nonzero number rounds toward zero.
pub proof fn lemma_truncated_quotient_remainder(a: int, b: int)
    requires
        b != 0,
    ensures
        rounds_toward_zero(truncated_quotient(a, b), a, b),
{
    let ma: int = magnitude(a);
    let mb: int = magnitude(b);
    let q: int = ma / mb;
    let r: int = ma % mb;
    assert(ma == q * mb + r && 0 <= r < mb) by (nonlinear_arith)
        requires
            mb > 0,
            q == ma / mb,
            r == ma % mb,
    ;
    assert(q * (-b) == -(q * b) && (-q) * b == -(q * b) && (-q) * (-b) == q * b)
        by (nonlinear_arith);
}

/// Nothing else does: an integer that divides `a` by a nonzero `b` with
/// rounding toward zero is the truncated quotient of `a` by `b`.
pub proof fn lemma_truncated_quotient_unique(a: int, b: int, q: int)
    requires
        b != 0,
        rounds_toward_zero(q, a, b),
    ensures
        q == truncated_quotient(a, b),
{
    let t: int = truncated_quotient(a, b);
    lemma_truncated_quotient_remainder(a, b);
    assert(q == t) by (nonlinear_arith)
        requires
            b != 0,
            -magnitude(b) < (a - q * b) - (a - t * b) < magnitude(b),
            magnitude(b) == b || magnitude(b) == -b,
    ;
}

/// Addition is commutative, whether or not it overflows: `add(a, b)` and
/// `add(b, a)` return the same sum.
pub proof fn lemma_add_commutative(a: i32, b: i32)
    ensures
        wrap_i32(a + b) == wrap_i32(b + a),
{
}

/// Where neither difference overflows, exchanging the operands of a
/// subtraction negates the result: `subtract(a, b) == -subtract(b, a)`.
pub proof fn lemma_subtract_antisymmetric(a: i32, b: i32)
    requires
        i32::MIN <= a - b <= i32::MAX,
        i32::MIN <= b - a <= i32::MAX,
    ensures
        wrap_i32(a - b) == -wrap_i32(b - a),
{
}

/// Returns the sum of `a` and `b`, wrapped around on overflow.
pub fn add(a: i32, b: i32) -> (sum: i32)
    ensures
        sum == wrap_i32(a + b),
        i32::MIN <= a + b <= i32::MAX ==> sum == a + b,
{
    a.wrapping_add(b)
}

/// Returns the difference of `a` and `b`, wrapped around on overflow.
pub fn subtract(a: i32, b: i32) -> (difference: i32)
    ensures
        difference == wrap_i32(a - b),
        i32::MIN <= a - b <= i32::MAX ==> difference == a - b,
{
    a.wrapping_sub(b)
}

/// Returns the product of `a` and `b`, wrapped around on overflow.
pub fn multiply(a: i32, b: i32) -> (product: i32)
    ensures
        product == wrap_i32(a * b),
        i32::MIN <= a * b <= i32::MAX ==> product == a * b,
{
    a.wrapping_mul(b)
}

/// Dividing by a negative number negates the quotient by its magnitude.
proof fn lemma_divide_by_negative(x: int, d: int)
    requires
        d < 0,
    ensures
        x / d == -(x / (-d)),
{
    let e: int = -d;
    let q: int = x / e;
    let r: int = x % e;
    assert(x == q * e + r && 0 <= r < e) by (nonlinear_arith)
        requires
            e > 0,
            q == x / e,
            r == x % e,
    ;
    assert(x == (-q) * d + r) by (nonlinear_arith)
        requires
            x == q * e + r,
            e == -d,
    ;
    assert(-q == x / d) by (nonlinear_arith)
        requires
            x == (-q) * d + r,
            0 <= r < -d,
    ;
}

/// The truncated quotient of two 32-bit integers fits in 32 bits, except
/// that of `i32::MIN` by `-1`, which is 2^31.
pub proof fn lemma_truncated_quotient_fits(a: i32, b: i32)
    requires
        b != 0,
    ensures
        !(a == i32::MIN && b == -1) ==> i32::MIN <= truncated_quotient(a as int, b as int)
            <= i32::MAX,
        a == i32::MIN && b == -1 ==> truncated_quotient(a as int, b as int) == i32::MAX + 1,
        wrap_i32(i32::MAX + 1) == i32::MIN,
{
    let ma: int = magnitude(a as int);
    let mb: int = magnitude(b as int);
    let q: int = ma / mb;
    assert(0 <= q <= ma && (mb == 1 ==> q == ma) && (mb >= 2 ==> 2 * q <= ma))
        by (nonlinear_arith)
        requires
            ma >= 0,
            mb >= 1,
            q == ma / mb,
    ;
}

/// Returns the quotient of `a` by `b`, rounded toward zero, or `None` where
/// `b` is zero.
///
/// One quotient does not fit in 32 bits, that of `i32::MIN` by `-1`; like
/// every other overflow it wraps around, to `i32::MIN`.
pub fn divide(a: i32, b: i32) -> (quotient: Option<i32>)
    ensures
        b == 0 <==> quotient is None,
        b != 0 ==> (quotient matches Some(q) && q == wrap_i32(
            truncated_quotient(a as int, b as int),
        )),
        b != 0 && !(a == i32::MIN && b == -1) ==> (quotient matches Some(q)
            && q == truncated_quotient(a as int, b as int)
            && rounds_toward_zero(q as int, a as int, b as int)),
{
    if b == 0 {
        None
    } else if a == i32::MIN && b == -1 {
        proof {
            lemma_truncated_quotient_fits(a, b);
        }
        Some(a)
    } else {
        proof {
            lemma_truncated_quotient_fits(a, b);
            lemma_truncated_quotient_remainder(a as int, b as int);
            if b < 0 {
                lemma_divide_by_negative(magnitude(a as int), b as int);
            }
        }
        Some(a / b)
    }
}

} // verus!
