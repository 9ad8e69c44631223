use std::cmp::Ordering;

use pliego_core::dyadic::{
    ceil_difference, ceil_sum, compare_positive_dyadics, integer_and_fraction, ExactDyadic,
};

fn number(coefficient: u128, binary_exponent: i32) -> ExactDyadic {
    ExactDyadic { coefficient, binary_exponent }
}

fn parts(coefficient: u128, binary_exponent: i32) -> (Option<u128>, u128, i32) {
    let (integer, fraction) = integer_and_fraction(number(coefficient, binary_exponent));
    (integer, fraction.coefficient, fraction.binary_exponent)
}

#[test]
fn a_number_splits_into_its_integer_part_and_fraction() {
    assert_eq!(parts(11, -2), (Some(2), 3, -2));
    assert_eq!(parts(3, 4), (Some(48), 0, 0));
    assert_eq!(parts(8, -3), (Some(1), 0, -3));
    assert_eq!(parts(u128::MAX, -127), (Some(1), u128::MAX >> 1, -127));
    assert_eq!(parts(1, 127), (Some(1 << 127), 0, 0));
    assert_eq!(parts(1, 128), (None, 0, 0));
    assert_eq!(parts(u128::MAX, 1), (None, 0, 0));
}

#[test]
fn every_exponent_splits() {
    assert_eq!(parts(5, -128), (Some(0), 5, -128));
    assert_eq!(parts(5, -2_000_000), (Some(0), 5, -2_000_000));
    assert_eq!(parts(5, i32::MIN + 1), (Some(0), 5, i32::MIN + 1));
    assert_eq!(parts(1, i32::MAX), (None, 0, 0));
    assert_eq!(parts(0, i32::MAX), (Some(0), 0, 0));
    assert_eq!(parts(0, i32::MIN), (Some(0), 0, 0));
}

#[test]
fn numbers_compare_whatever_their_representation() {
    let cases = [
        (number(2, 7), number(1, 8), Ordering::Equal),
        (number(0, 900), number(0, -900), Ordering::Equal),
        (number(0, i32::MAX), number(1, i32::MIN), Ordering::Less),
        (number(3, -2), number(1, 0), Ordering::Less),
        (number(5, -2), number(1, 0), Ordering::Greater),
        (number(u128::MAX, 0), number(1, 128), Ordering::Less),
        (number(1, 128), number(1, 127), Ordering::Greater),
        (number(1, i32::MAX), number(u128::MAX, i32::MIN), Ordering::Greater),
    ];
    for (left, right, order) in cases {
        assert_eq!(compare_positive_dyadics(left, right), order);
        assert_eq!(compare_positive_dyadics(right, left), order.reverse());
    }
}

#[test]
fn a_difference_is_rounded_up_once() {
    // 2.75 less 1.25 is 1.5; 2.25 less 1.75 is a half.
    assert_eq!(ceil_difference(number(11, -2), number(5, -2)), Some(2));
    assert_eq!(ceil_difference(number(9, -2), number(7, -2)), Some(1));
    assert_eq!(ceil_difference(number(7, -2), number(7, -2)), Some(0));
    assert_eq!(ceil_difference(number(u128::MAX, 0), number(0, 900)), Some(u128::MAX));
    assert_eq!(ceil_difference(number(u128::MAX, 0), number(1, -1074)), Some(u128::MAX));
    assert_eq!(ceil_difference(number(u128::MAX, -1), number(1, 126)), Some(1 << 126));
}

#[test]
fn a_difference_of_large_numbers_needs_one_exponent() {
    assert_eq!(ceil_difference(number(3, 200), number(3, 200)), Some(0));
    assert_eq!(ceil_difference(number(1, 128), number(1, 127)), Some(1 << 127));
    assert_eq!(ceil_difference(number(1, 128), number(1, 0)), None);
    assert_eq!(ceil_difference(number(1, 129), number(1, 126)), None);
    assert_eq!(ceil_difference(number(1, 128), number(1, -1)), None);
    assert_eq!(ceil_difference(number(1 << 127, 10), number(0, 500)), None);
}

#[test]
fn a_sum_is_rounded_up_once() {
    assert_eq!(ceil_sum(number(1, -2), number(1, -2)), Some(1));
    assert_eq!(ceil_sum(number(3, -2), number(3, -2)), Some(2));
    assert_eq!(ceil_sum(number(2, 0), number(1, -1074)), Some(3));
    assert_eq!(ceil_sum(number(1, 127), number(1, 127)), None);
}
