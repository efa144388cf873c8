use exercises::primes::{display_primes, is_prime};

#[test]
fn primes_up_to_twenty_match_known_set() {
    let known = [2, 3, 5, 7, 11, 13, 17, 19];
    for n in 0..=20 {
        assert_eq!(is_prime(n), known.contains(&n), "disagreement at {}", n);
    }
}

#[test]
fn negative_numbers_are_not_prime() {
    assert!(!is_prime(-5));
    assert!(!is_prime(-2));
    assert!(!is_prime(-1));
}

#[test]
fn larger_primes_and_composites() {
    assert!(is_prime(97));
    assert!(!is_prime(100));
    assert!(!is_prime(25));
    assert!(!is_prime(49));
    assert!(is_prime(7919));
    assert!(!is_prime(7917));
    assert!(is_prime(2147483647));
}

#[test]
fn display_primes_below_ten() {
    assert_eq!(display_primes(10), "2, 3, 5, 7");
}

#[test]
fn display_primes_with_no_primes_in_range() {
    assert_eq!(display_primes(2), "");
    assert_eq!(display_primes(0), "");
    assert_eq!(display_primes(-3), "");
}

#[test]
fn display_primes_below_thirty() {
    assert_eq!(display_primes(30), "2, 3, 5, 7, 11, 13, 17, 19, 23, 29");
}
