use calculator::{factorial, integer_sqrt, is_prime};

#[test]
fn factorial_of_zero_and_one_is_one() {
    assert_eq!(factorial(0), 1);
    assert_eq!(factorial(1), 1);
}

#[test]
fn factorial_is_exact_up_to_twelve() {
    let expected: [u32; 13] = [
        1, 1, 2, 6, 24, 120, 720, 5040, 40320, 362880, 3628800, 39916800, 479001600,
    ];
    for n in 0..13u32 {
        assert_eq!(factorial(n), expected[n as usize]);
    }
}

#[test]
fn factorial_wraps_from_thirteen_on() {
    assert_eq!(factorial(13), 1932053504);
    assert_eq!(factorial(14), 1278945280);
    assert_eq!(factorial(20), 2192834560);
    assert_eq!(factorial(33), 2147483648);
}

#[test]
fn factorial_matches_the_wrapped_product() {
    let mut product: u64 = 1;
    for n in 1..=40u32 {
        product = (product * n as u64) % (1u64 << 32);
        assert_eq!(factorial(n) as u64, product);
    }
}

#[test]
fn factorial_of_large_numbers_is_zero() {
    assert_eq!(factorial(34), 0);
    assert_eq!(factorial(35), 0);
    assert_eq!(factorial(1000), 0);
    assert_eq!(factorial(u32::MAX), 0);
}

#[test]
fn small_composites_are_not_prime() {
    for &n in [0u32, 1, 4, 6, 8, 9, 10].iter() {
        assert_eq!(is_prime(n), false);
    }
}

#[test]
fn small_primes_are_prime() {
    for &n in [2u32, 3, 5, 7, 11, 17, 97].iter() {
        assert_eq!(is_prime(n), true);
    }
}

#[test]
fn is_prime_around_perfect_squares() {
    assert_eq!(is_prime(23), true);
    assert_eq!(is_prime(24), false);
    assert_eq!(is_prime(25), false);
    assert_eq!(is_prime(26), false);
    assert_eq!(is_prime(47), true);
    assert_eq!(is_prime(49), false);
    assert_eq!(is_prime(121), false);
    assert_eq!(is_prime(127), true);
    assert_eq!(is_prime(4293001441), false);
    assert_eq!(is_prime(4294836225), false);
}

#[test]
fn is_prime_on_large_numbers() {
    assert_eq!(is_prime(65521), true);
    assert_eq!(is_prime(2147483647), true);
    assert_eq!(is_prime(4294967279), true);
    assert_eq!(is_prime(4294967291), true);
    assert_eq!(is_prime(4294967295), false);
    assert_eq!(is_prime(4294967294), false);
}

#[test]
fn is_prime_agrees_with_a_search_for_divisors() {
    for n in 0..2000u32 {
        let mut has_divisor = false;
        for d in 2..n {
            if n % d == 0 {
                has_divisor = true;
            }
        }
        assert_eq!(is_prime(n), n >= 2 && !has_divisor);
    }
}

#[test]
fn integer_sqrt_of_small_numbers() {
    let expected: [u32; 17] = [0, 1, 1, 1, 2, 2, 2, 2, 2, 3, 3, 3, 3, 3, 3, 3, 4];
    for n in 0..17u32 {
        assert_eq!(integer_sqrt(n), expected[n as usize]);
    }
}

#[test]
fn integer_sqrt_around_perfect_squares() {
    assert_eq!(integer_sqrt(24), 4);
    assert_eq!(integer_sqrt(25), 5);
    assert_eq!(integer_sqrt(26), 5);
    assert_eq!(integer_sqrt(4294836224), 65534);
    assert_eq!(integer_sqrt(4294836225), 65535);
    assert_eq!(integer_sqrt(2147483647), 46340);
    assert_eq!(integer_sqrt(u32::MAX), 65535);
}

#[test]
fn integer_sqrt_is_the_floor_of_the_root() {
    for r in 0..=65535u64 {
        let low = (r * r) as u32;
        let high = ((r + 1) * (r + 1) - 1) as u32;
        assert_eq!(integer_sqrt(low) as u64, r);
        assert_eq!(integer_sqrt(high) as u64, r);
    }
}
