use prime_sieve::{Sieve, SieveError};

#[test]
fn marks_correctly_low() {
    let test_case = Sieve::new(10);
    assert!(test_case.lookup(5).unwrap());
}

#[test]
fn marks_correctly_med() {
    let test_case = Sieve::new(1000);
    assert!(!test_case.lookup(500).unwrap());
}

#[test]
fn test_correct_filtering() {
    let test_sieve = Sieve::new(15);
    let cases = vec![1, 2, 3, 4, 5, 6];
    assert_eq!(vec![2, 3, 5], test_sieve.filter(cases).unwrap());
}

#[test]
#[should_panic]
fn panics_on_invalid_lookup() {
    let test_case = Sieve::new(10);
    test_case.lookup(100).unwrap();
}

#[test]
#[should_panic]
fn panics_on_unfilled_lookup() {
    let test_case = Sieve::unfilled(10);
    test_case.lookup(5).unwrap();
}

#[test]
fn zero_and_one_are_not_prime() {
    let tiny = Sieve::new(1);
    assert_eq!(tiny.lookup(0), Ok(false));
    assert_eq!(tiny.lookup(1), Ok(false));
    let larger = Sieve::new(10);
    assert_eq!(larger.lookup(0), Ok(false));
    assert_eq!(larger.lookup(1), Ok(false));
}

fn prime_by_trial_division(n: usize) -> bool {
    n >= 2 && (2..n).all(|d| n % d != 0)
}

#[test]
fn matches_trial_division() {
    let limit = 100;
    let sieve = Sieve::new(limit);
    for i in 0..=limit {
        assert_eq!(sieve.lookup(i), Ok(prime_by_trial_division(i)), "value {}", i);
    }
}

#[test]
fn fill_is_idempotent() {
    let mut once = Sieve::unfilled(30);
    once.fill();
    let mut twice = Sieve::unfilled(30);
    twice.fill();
    twice.fill();
    assert_eq!(once, twice);
    for i in 0..=30 {
        assert_eq!(once.lookup(i), twice.lookup(i));
    }
}

#[test]
fn unfilled_lookup_is_rejected() {
    let sieve = Sieve::unfilled(10);
    assert_eq!(sieve.lookup(5), Err(SieveError::NotPopulated));
    assert_eq!(sieve.lookup(0), Err(SieveError::NotPopulated));
    assert_eq!(sieve.lookup(100), Err(SieveError::NotPopulated));
}

#[test]
fn out_of_bounds_reports_value_and_limit() {
    let sieve = Sieve::new(10);
    assert_eq!(
        sieve.lookup(100),
        Err(SieveError::OutOfBounds { value: 100, limit: 10 })
    );
    assert_eq!(
        sieve.lookup(11),
        Err(SieveError::OutOfBounds { value: 11, limit: 10 })
    );
    assert_eq!(sieve.lookup(10), Ok(false));
}

#[test]
fn filter_keeps_order_and_duplicates() {
    let sieve = Sieve::new(15);
    let cases = vec![5, 4, 2, 2, 9, 3, 2, 0, 1];
    assert_eq!(sieve.filter(cases), Ok(vec![5, 2, 2, 3, 2]));
}

#[test]
fn filter_of_empty_input_is_empty() {
    let filled = Sieve::new(10);
    assert_eq!(filled.filter(vec![]), Ok(vec![]));
    let unfilled = Sieve::unfilled(10);
    assert_eq!(unfilled.filter(vec![]), Ok(vec![]));
}

#[test]
fn filter_fails_on_any_out_of_bounds_candidate() {
    let sieve = Sieve::new(10);
    assert_eq!(
        sieve.filter(vec![2, 3, 100, 5]),
        Err(SieveError::OutOfBounds { value: 100, limit: 10 })
    );
    assert_eq!(
        sieve.filter(vec![11, 100]),
        Err(SieveError::OutOfBounds { value: 11, limit: 10 })
    );
}

#[test]
fn filter_fails_on_unfilled_sieve() {
    let sieve = Sieve::unfilled(10);
    assert_eq!(sieve.filter(vec![2]), Err(SieveError::NotPopulated));
    assert_eq!(sieve.filter(vec![100]), Err(SieveError::NotPopulated));
}

#[test]
fn concrete_lookup_scenarios() {
    assert_eq!(Sieve::new(10).lookup(5), Ok(true));
    assert_eq!(Sieve::new(1000).lookup(500), Ok(false));
    assert_eq!(Sieve::unfilled(10).lookup(5), Err(SieveError::NotPopulated));
    assert_eq!(
        Sieve::new(10).lookup(100),
        Err(SieveError::OutOfBounds { value: 100, limit: 10 })
    );
}

#[test]
fn max_reports_configured_limit() {
    assert_eq!(Sieve::new(10).max(), 10);
    assert_eq!(Sieve::unfilled(7).max(), 7);
    assert_eq!(Sieve::new(0).max(), 0);
}

#[test]
fn smallest_limits_are_handled() {
    let zero = Sieve::new(0);
    assert_eq!(zero.lookup(0), Ok(false));
    assert_eq!(
        zero.lookup(1),
        Err(SieveError::OutOfBounds { value: 1, limit: 0 })
    );
    let two = Sieve::new(2);
    assert_eq!(two.lookup(2), Ok(true));
    assert_eq!(two.filter(vec![0, 1, 2]), Ok(vec![2]));
}
