use calculator::{divide, factorial, is_prime, max, min, multiply, subtract};

#[test]
fn test_add() {
    assert_eq!(calculator::add(2, 2), 4);
    assert_eq!(calculator::add(-1, 1), 0);
}

#[test]
fn test_subtract() {
    assert_eq!(subtract(5, 3), 2);
    assert_eq!(subtract(1, 1), 0);
}

#[test]
fn test_multiply() {
    assert_eq!(multiply(3, 4), 12);
    assert_eq!(multiply(-2, 3), -6);
}

#[test]
fn test_divide() {
    assert_eq!(divide(10, 2), Some(5));
    assert_eq!(divide(10, 0), None);
}

#[test]
fn test_factorial() {
    assert_eq!(factorial(0), 1);
    assert_eq!(factorial(5), 120);
}

#[test]
fn test_is_prime() {
    assert_eq!(is_prime(2), true);
    assert_eq!(is_prime(17), true);
    assert_eq!(is_prime(4), false);
    assert_eq!(is_prime(1), false);
}

#[test]
fn test_max() {
    assert_eq!(max(5, 3), 5);
    assert_eq!(max(2, 8), 8);
}

#[test]
fn test_min() {
    assert_eq!(min(5, 3), 3);
    assert_eq!(min(2, 8), 2);
}

#[test]
fn results_on_the_demo_inputs() {
    assert_eq!(calculator::add(10, 3), 13);
    assert_eq!(subtract(10, 3), 7);
    assert_eq!(multiply(10, 3), 30);
    assert_eq!(divide(10, 3), Some(3));
    assert_eq!(divide(10, 0), None);
    assert_eq!(factorial(5), 120);
    assert_eq!(is_prime(17), true);
    assert_eq!(max(10, 3), 10);
    assert_eq!(min(10, 3), 3);
}
