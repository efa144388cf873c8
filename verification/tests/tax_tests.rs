use exercises::tax::{compute_tax, TaxError};

// Tax comes back in hundredths of a currency unit, so 10000.0 is
// 1_000_000.

#[test]
fn married_in_state() {
    assert_eq!(compute_tax(50000, "married", 'i'), Ok(1_000_000));
    assert!((compute_tax(50000, "married", 'i').unwrap() as f64) / 100.0 == 10000.0);
}

#[test]
fn married_out_of_state() {
    assert_eq!(compute_tax(50000, "married", 'o'), Ok(850_000));
    assert!((compute_tax(50000, "married", 'o').unwrap() as f64) / 100.0 == 8500.0);
}

#[test]
fn unknown_state_character() {
    assert_eq!(compute_tax(30000, "single", 'x'), Err(TaxError::InvalidState));
}

#[test]
fn unknown_status() {
    assert_eq!(compute_tax(1000, "foo", 'i'), Err(TaxError::InvalidStatus));
}

#[test]
fn status_and_state_are_case_insensitive() {
    assert_eq!(compute_tax(50000, "MARRIED", 'I'), Ok(1_000_000));
    assert_eq!(compute_tax(50000, "Married", 'O'), Ok(850_000));
    assert_eq!(compute_tax(30000, "Single", 'i'), Ok(900_000));
}

#[test]
fn bracket_boundaries() {
    // 60000 married is already the upper bracket; 59999 is not.
    assert_eq!(compute_tax(60000, "married", 'i'), Ok(1_500_000));
    assert_eq!(compute_tax(59999, "married", 'i'), Ok(1_199_980));
    // 40000 single is already the upper bracket; 39999 is not.
    assert_eq!(compute_tax(40000, "single", 'i'), Ok(1_400_000));
    assert_eq!(compute_tax(39999, "single", 'i'), Ok(1_199_970));
}

#[test]
fn status_is_checked_before_state() {
    assert_eq!(compute_tax(1000, "widowed", 'z'), Err(TaxError::InvalidStatus));
}
