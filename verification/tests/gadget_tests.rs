//! Gadget-level scenarios: the zero and equality indicators on concrete
//! values, and the range check at its boundaries.

use sudoku_circuit::gadgets::enforce_consistency;
use sudoku_circuit::gadgets::enforce_not_equal;
use sudoku_circuit::gadgets::is_eq_with_output;
use sudoku_circuit::gadgets::is_zero_with_output;
use sudoku_circuit::gadgets::range_check;
use sudoku_circuit::system::ConstraintSet;
use sudoku_circuit::system::Visibility;

fn is_zero_value(x: u64) -> u64 {
    let mut cs = ConstraintSet::new();
    let a = cs.allocate(x, Visibility::Private);
    let b = is_zero_with_output(&mut cs, a);
    assert!(cs.is_satisfied());
    cs.value_of(b)
}

fn is_eq_value(x: u64, y: u64) -> u64 {
    let mut cs = ConstraintSet::new();
    let a = cs.allocate(x, Visibility::Private);
    let b = cs.allocate(y, Visibility::Private);
    let e = is_eq_with_output(&mut cs, a, b);
    cs.value_of(e)
}

#[test]
fn is_zero_on_zero_is_one() {
    assert_eq!(is_zero_value(0), 1);
}

#[test]
fn is_zero_on_nonzero_is_zero() {
    for x in [1u64, 2, 5, 9] {
        assert_eq!(is_zero_value(x), 0);
    }
}

#[test]
fn is_eq_matches_equality() {
    assert_eq!(is_eq_value(4, 4), 1);
    assert_eq!(is_eq_value(4, 7), 0);
    assert_eq!(is_eq_value(0, 9), 0);
    assert_eq!(is_eq_value(0, 0), 1);
}

#[test]
fn is_eq_reflexive_and_symmetric() {
    for x in [0u64, 1, 3, 9] {
        assert_eq!(is_eq_value(x, x), 1);
        for y in [0u64, 1, 3, 9] {
            assert_eq!(is_eq_value(x, y), is_eq_value(y, x));
        }
    }
}

#[test]
fn test_range_check_custom_gate() {
    // The value 10 lies just outside the accepted digits.
    let mut cs = ConstraintSet::new();
    let v = cs.allocate(10, Visibility::Private);
    range_check(&mut cs, v);
    assert!(!cs.is_satisfied());
}

#[test]
fn test_range_check_custom_gate_many() {
    for x in 1u64..=9 {
        let mut cs = ConstraintSet::new();
        let v = cs.allocate(x, Visibility::Private);
        range_check(&mut cs, v);
        assert!(cs.is_satisfied());
    }
    for x in [0u64, 10, 42, 127] {
        let mut cs = ConstraintSet::new();
        let v = cs.allocate(x, Visibility::Private);
        range_check(&mut cs, v);
        assert!(!cs.is_satisfied());
    }
}

#[test]
fn test_not_equal() {
    let mut cs = ConstraintSet::new();
    let a = cs.allocate(3, Visibility::Private);
    let b = cs.allocate(5, Visibility::Private);
    enforce_not_equal(&mut cs, a, b);
    assert!(cs.is_satisfied());

    let mut cs = ConstraintSet::new();
    let a = cs.allocate(4, Visibility::Private);
    let b = cs.allocate(4, Visibility::Private);
    enforce_not_equal(&mut cs, a, b);
    assert!(!cs.is_satisfied());
}

#[test]
fn consistency_blank_and_matching() {
    // A blank puzzle cell leaves the solution cell free.
    let mut cs = ConstraintSet::new();
    let p = cs.allocate(0, Visibility::Public);
    let s = cs.allocate(7, Visibility::Private);
    enforce_consistency(&mut cs, p, s);
    assert!(cs.is_satisfied());

    // A non-blank cell must be matched.
    let mut cs = ConstraintSet::new();
    let p = cs.allocate(6, Visibility::Public);
    let s = cs.allocate(6, Visibility::Private);
    enforce_consistency(&mut cs, p, s);
    assert!(cs.is_satisfied());

    let mut cs = ConstraintSet::new();
    let p = cs.allocate(6, Visibility::Public);
    let s = cs.allocate(5, Visibility::Private);
    enforce_consistency(&mut cs, p, s);
    assert!(!cs.is_satisfied());
}
