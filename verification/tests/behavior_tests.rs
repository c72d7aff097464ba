use sieve::is_prime;
use sieve::sieve;

use std::collections::HashSet;
use std::iter::FromIterator;

#[test]
fn test_is_prime_rejects_numbers_below_two() {
    assert_eq!(false, is_prime(0));
    assert_eq!(false, is_prime(1));
}

#[test]
fn test_is_prime_concrete_scenarios() {
    assert_eq!(true, is_prime(2));
    assert_eq!(false, is_prime(1));
    assert_eq!(true, is_prime(97));
    assert_eq!(false, is_prime(100));
}

#[test]
fn test_sieve_is_empty_for_bounds_below_two() {
    assert!(sieve(0).is_empty());
    assert!(sieve(1).is_empty());
}

#[test]
fn test_sieve_of_two_is_exactly_two() {
    let expected: HashSet<u32> = HashSet::from_iter(vec![2]);
    assert_eq!(sieve(2), expected);
}

#[test]
fn test_sieve_of_ten_has_size_four() {
    let result = sieve(10);
    assert_eq!(result.len(), 4);
    assert_eq!(result, HashSet::from_iter(vec![2, 3, 5, 7]));
}

#[test]
fn test_sieve_membership_agrees_with_is_prime() {
    let upper_bound: u32 = 200;
    let result = sieve(upper_bound);
    for n in 0..=upper_bound {
        assert_eq!(result.contains(&n), is_prime(n));
    }
    for p in &result {
        assert!(2 <= *p && *p <= upper_bound);
    }
}

#[test]
fn test_sieve_is_idempotent_for_equal_bounds() {
    assert_eq!(sieve(50), sieve(50));
    assert_eq!(sieve(0), sieve(0));
    assert_eq!(sieve(2), sieve(2));
}

#[test]
fn test_sieve_grows_monotonically_with_the_bound() {
    assert!(sieve(0).is_subset(&sieve(1)));
    assert!(sieve(1).is_subset(&sieve(2)));
    assert!(sieve(2).is_subset(&sieve(3)));
    assert!(sieve(10).is_subset(&sieve(100)));
    assert!(sieve(99).is_subset(&sieve(100)));
}
