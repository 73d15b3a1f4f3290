//! The factorial of an unsigned 32-bit integer, modulo 2^32.

use vstd::arithmetic::div_mod::lemma_mul_mod_noop_left;
use vstd::prelude::*;
use crate::wrap::{modulus, wrap_u32};

verus! {

/// The factorial of `n`: the product `1 * 2 * ... * n`, which is 1 for 0
/// and for 1.
pub open spec fn factorial_of(n: nat) -> nat
    decreases n,
{
    if n <= 1 {
        1
    } else {
        n * factorial_of((n - 1) as nat)
    }
}

/// Factorials are positive and do not decrease.
pub proof fn lemma_factorial_monotonic(m: nat, n: nat)
    requires
        m <= n,
    ensures
        1 <= factorial_of(m) <= factorial_of(n),
    decreases n,
{
    if m < n {
        let p: nat = (n - 1) as nat;
        lemma_factorial_monotonic(m, p);
        assert(factorial_of(p) <= n * factorial_of(p)) by (nonlinear_arith)
            requires
                n >= 1,
        ;
    } else if n > 1 {
        let p: nat = (n - 1) as nat;
        lemma_factorial_monotonic(p, p);
        assert(1 <= n * factorial_of(p)) by (nonlinear_arith)
            requires
                n >= 1,
                factorial_of(p) >= 1,
        ;
    }
}

/// The factorial of `n` fits in 32 bits exactly when `n` is at most 12.
pub proof fn lemma_factorial_fits(n: nat)
    ensures
        factorial_of(n) <= u32::MAX <==> n <= 12,
{
    assert(factorial_of(12) == 479001600 && factorial_of(13) == 6227020800) by {
        reveal_with_fuel(factorial_of, 14);
    }
    if n <= 12 {
        lemma_factorial_monotonic(n, 12);
    } else {
        lemma_factorial_monotonic(13, n);
    }
}

/// Once a factorial is a multiple of 2^32, every later one is.
pub proof fn lemma_factorial_stays_zero(m: nat, n: nat)
    requires
        m <= n,
        wrap_u32(factorial_of(m) as int) == 0,
    ensures
        wrap_u32(factorial_of(n) as int) == 0,
    decreases n,
{
    if m < n {
        let p: nat = (n - 1) as nat;
        lemma_factorial_stays_zero(m, p);
        lemma_factorial_step(p);
    }
}

/// From 34 on, every factorial is a multiple of 2^32.
pub proof fn lemma_factorial_vanishes(n: nat)
    requires
        n >= 34,
    ensures
        wrap_u32(factorial_of(n) as int) == 0,
{
    assert(factorial_of(12) == 479001600) by {
        reveal_with_fuel(factorial_of, 13);
    }
    assert(factorial_of(20) == 2432902008176640000) by {
        reveal_with_fuel(factorial_of, 9);
    }
    assert(factorial_of(27) == 10888869450418352160768000000) by {
        reveal_with_fuel(factorial_of, 8);
    }
    assert(factorial_of(28) == 304888344611713860501504000000);
    assert(factorial_of(29) == 8841761993739701954543616000000);
    assert(factorial_of(30) == 265252859812191058636308480000000);
    assert(factorial_of(31) == 8222838654177922817725562880000000);
    assert(factorial_of(32) == 263130836933693530167218012160000000);
    assert(factorial_of(33) == 8683317618811886495518194401280000000);
    assert(factorial_of(34) == 295232799039604140847618609643520000000);
    assert(295232799039604140847618609643520000000 == 68739242628124575327993046875 * modulus());
    lemma_factorial_stays_zero(34, n);
}

/// One step of the product, modulo 2^32: the next factorial's residue comes
/// from the residue of this one.
proof fn lemma_factorial_step(p: nat)
    ensures
        wrap_u32(factorial_of(p + 1) as int) == wrap_u32(
            wrap_u32(factorial_of(p) as int) * (p + 1),
        ),
{
    let f: int = factorial_of(p) as int;
    let k: int = p as int + 1;
    assert(factorial_of(p + 1) == k * f) by {
        if p == 0 {
            assert(k == 1 && f == 1);
        } else {
            assert(factorial_of((p + 1) as nat) == (p + 1) * factorial_of(p));
        }
    }
    assert(k * f == f * k) by (nonlinear_arith);
    lemma_mul_mod_noop_left(f, k, modulus());
}

/// Returns the factorial of `n`, reduced modulo 2^32.
///
/// The product is exact up to `n == 12`; from 13 on it no longer fits in 32
/// bits and only its low 32 bits are returned, which are all zero from 34 on.
pub fn factorial(n: u32) -> (f: u32)
    ensures
        f == wrap_u32(factorial_of(n as nat) as int),
        n <= 12 ==> f == factorial_of(n as nat),
        n >= 34 ==> f == 0,
{
    let mut acc: u32 = 1;
    let mut i: u32 = 1;
    while i < n && acc != 0
        invariant
            1 <= i,
            i <= n || (n == 0 && i == 1),
            acc == wrap_u32(factorial_of(i as nat) as int),
        decreases n - i,
    {
        proof {
            lemma_factorial_step(i as nat);
        }
        i = i + 1;
        acc = acc.wrapping_mul(i);
    }
    proof {
        if i < n {
            lemma_factorial_stays_zero(i as nat, n as nat);
        }
        lemma_factorial_fits(n as nat);
        if n >= 34 {
            lemma_factorial_vanishes(n as nat);
        }
    }
    acc
}

} // verus!
