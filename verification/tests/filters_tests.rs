//! Tests for the utility functions and the simple filters.

use clearcast_core::utils::hz_to_radians;
use clearcast_core::filters::apply_gain;
use clearcast_core::filters::low_pass;

#[test]
fn test_hz_to_radians() {
    let result = hz_to_radians(1_000_000_000, 44_100_000_000);
    assert!(result > 142_000 && result < 143_000);
}

#[test]
fn test_apply_gain() {
    let input = vec![1_000_000i64, 500_000, -500_000, -1_000_000];
    let expected = vec![2_000_000i64, 1_000_000, -1_000_000, -2_000_000];
    let result = apply_gain(&input, 2_000_000);
    assert_eq!(result, expected);
}

#[test]
fn test_low_pass() {
    let input = vec![0i64, 1_000_000, 0, 1_000_000, 0];
    let result = low_pass(&input, 500_000);
    assert_eq!(result.len(), input.len());
    assert_eq!(result[0], 0);
    // the smoothed signal stays between consecutive extremes
    for &y in &result {
        assert!(0 <= y && y <= 1_000_000);
    }
}

#[test]
fn test_low_pass_empty() {
    let input: Vec<i64> = vec![];
    let result = low_pass(&input, 500_000);
    assert!(result.is_empty());
}
