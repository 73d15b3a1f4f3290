//! Primality of unsigned 32-bit integers by trial division, with the integer
//! square root that bounds the search.

use vstd::prelude::*;

verus! {

/// `d` is a positive divisor of `n`.
pub open spec fn divides(d: nat, n: nat) -> bool {
    d > 0 && n % d == 0
}

/// `n` is a prime number: at least 2, and no number strictly between 1 and
/// `n` divides it.
pub open spec fn is_prime_number(n: nat) -> bool {
    n >= 2 && forall|d: nat| 1 < d < n ==> !divides(d, n)
}

/// `r` is the floor of the square root of `n`.
pub open spec fn is_floor_sqrt(r: nat, n: nat) -> bool {
    r * r <= n < (r + 1) * (r + 1)
}

/// A number has exactly one floor square root.
pub proof fn lemma_floor_sqrt_unique(r1: nat, r2: nat, n: nat)
    requires
        is_floor_sqrt(r1, n),
        is_floor_sqrt(r2, n),
    ensures
        r1 == r2,
{
    if r1 < r2 {
        lemma_square_monotonic(r1 + 1, r2);
    } else if r2 < r1 {
        lemma_square_monotonic(r2 + 1, r1);
    }
}

/// Squaring preserves order on the natural numbers.
pub proof fn lemma_square_monotonic(a: nat, b: nat)
    requires
        a <= b,
    ensures
        a * a <= b * b,
{
    assert(a * a <= b * b) by (nonlinear_arith)
        requires
            a <= b,
    ;
}

/// A number with an even divisor is even.
proof fn lemma_even_divisor(d: nat, n: nat)
    requires
        divides(d, n),
        d % 2 == 0,
    ensures
        n % 2 == 0,
{
    let h: nat = d / 2;
    let q: nat = n / d;
    assert(n == 2 * (h * q)) by (nonlinear_arith)
        requires
            d > 0,
            n % d == 0,
            d == 2 * h,
            q == n / d,
    ;
}

/// Divisors come in pairs: if `d` divides a positive `n`, so does `n / d`,
/// and the two multiply to `n`.
proof fn lemma_cofactor(d: nat, n: nat)
    requires
        divides(d, n),
        n > 0,
    ensures
        d * (n / d) == n,
        divides(n / d, n),
{
    let q: nat = n / d;
    assert(d * q == n) by (nonlinear_arith)
        requires
            d > 0,
            n % d == 0,
            q == n / d,
    ;
    assert(q > 0) by (nonlinear_arith)
        requires
            d * q == n,
            n > 0,
    ;
    assert(n % q == 0) by (nonlinear_arith)
        requires
            d * q == n,
            q > 0,
    ;
}

/// Trial division up to the square root is enough: a number above 1 that no
/// `d` with `1 < d <= r` divides, where `r` is its floor square root, is
/// prime.
pub proof fn lemma_no_small_divisor_is_prime(n: nat, r: nat)
    requires
        n >= 2,
        is_floor_sqrt(r, n),
        forall|d: nat| 1 < d <= r ==> !divides(d, n),
    ensures
        is_prime_number(n),
{
    assert forall|d: nat| 1 < d < n implies !divides(d, n) by {
        if divides(d, n) {
            lemma_cofactor(d, n);
            let e: nat = n / d;
            assert(d > r);
            assert(1 < e) by (nonlinear_arith)
                requires
                    d * e == n,
                    d < n,
                    d > 0,
            ;
            assert(e <= r) by (nonlinear_arith)
                requires
                    d * e == n,
                    d > r,
                    n < (r + 1) * (r + 1),
            ;
            assert(!divides(e, n));
        }
    }
}

/// Returns the floor of the square root of `n`.
pub fn integer_sqrt(n: u32) -> (r: u32)
    ensures
        is_floor_sqrt(r as nat, n as nat),
        r <= 65535,
{
    let mut lo: u32 = 0;
    let mut hi: u32 = 65536;
    assert(65536 * 65536 > n) by (nonlinear_arith);
    while hi - lo > 1
        invariant
            lo < hi <= 65536,
            lo * lo <= n < hi * hi,
        decreases hi - lo,
    {
        let mid: u32 = lo + (hi - lo) / 2;
        assert(mid * mid <= 65536 * 65536) by (nonlinear_arith)
            requires
                mid <= 65536,
        ;
        let square: u64 = (mid as u64) * (mid as u64);
        if square <= n as u64 {
            lo = mid;
        } else {
            hi = mid;
        }
    }
    lo
}

/// Decides whether `n` is a prime number.
///
/// Numbers below 2 are not prime, 2 is, and no other even number is. An odd
/// number above 2 is tried against the odd numbers from 3 up to the floor of
/// its square root.
pub fn is_prime(n: u32) -> (p: bool)
    ensures
        p == is_prime_number(n as nat),
{
    if n < 2 {
        return false;
    }
    if n == 2 {
        return true;
    }
    if n % 2 == 0 {
        assert(divides(2, n as nat));
        return false;
    }
    let limit: u32 = integer_sqrt(n);
    let mut i: u32 = 3;
    assert forall|d: nat| 1 < d < 3 implies !divides(d, n as nat) by {
        assert(d == 2);
    }
    while i <= limit
        invariant
            n > 2,
            n % 2 == 1,
            3 <= i <= limit + 2,
            i % 2 == 1,
            limit <= 65535,
            is_floor_sqrt(limit as nat, n as nat),
            forall|d: nat| 1 < d < i ==> !divides(d, n as nat),
        decreases limit + 2 - i,
    {
        if n % i == 0 {
            assert(i < n) by (nonlinear_arith)
                requires
                    3 <= i <= limit,
                    limit * limit <= n,
            ;
            assert(divides(i as nat, n as nat));
            return false;
        }
        assert forall|d: nat| 1 < d < i + 2 implies !divides(d, n as nat) by {
            if d == i + 1 && divides(d, n as nat) {
                lemma_even_divisor(d, n as nat);
            }
        }
        i = i + 2;
    }
    proof {
        lemma_no_small_divisor_is_prime(n as nat, limit as nat);
    }
    true
}

} // verus!
