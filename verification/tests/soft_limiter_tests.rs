//! Tests for the tanh-based soft limiter effect.

use clearcast_core::effects::SoftLimiter;
use clearcast_core::effects::soft_limit_buffer;

#[test]
fn test_soft_limiter_below_threshold() {
    let limiter = SoftLimiter::new(800_000, 100_000);
    let sample = 500_000i64;
    assert_eq!(limiter.apply_limiter(sample), sample);
}

#[test]
fn test_soft_limiter_above_threshold() {
    let limiter = SoftLimiter::new(800_000, 100_000);
    let sample = 1_500_000i64;
    let result = limiter.apply_limiter(sample);
    assert!(result < sample);
    assert!(result > 800_000);
}

#[test]
fn test_soft_limiter_negative() {
    let limiter = SoftLimiter::new(800_000, 100_000);
    let sample = -1_500_000i64;
    let result = limiter.apply_limiter(sample);
    assert!(result > sample);
    assert!(result < -800_000);
}

#[test]
fn test_soft_limiter_buffer() {
    let mut limiter = SoftLimiter::new(800_000, 100_000);
    let input = [500_000i64, 1_500_000, -1_800_000, 300_000];
    let mut output = [0i64; 4];

    for i in 0..input.len() {
        output[i] = limiter.process_sample(input[i]);
    }

    assert_eq!(output[0], 500_000);
    assert!(output[1] < 1_500_000 && output[1] > 800_000);
    assert!(output[2] > -1_800_000 && output[2] < -800_000);
    assert_eq!(output[3], 300_000);
}

#[test]
fn test_soft_limit_buffer_function() {
    let input = vec![500_000i64, 1_500_000, -1_800_000, 300_000];
    let mut output = vec![0i64; 4];

    soft_limit_buffer(&input, &mut output, 800_000, 100_000);

    assert_eq!(output[0], 500_000);
    assert!(output[1] < 1_500_000 && output[1] > 800_000);
    assert!(output[2] > -1_800_000 && output[2] < -800_000);
    assert_eq!(output[3], 300_000);
}

#[test]
fn test_soft_limiter_inactive_passes_everything() {
    let mut limiter = SoftLimiter::new(500_000, 100_000);
    limiter.set_active(false);
    assert_eq!(limiter.apply_limiter(1_900_000), 1_900_000);
    limiter.set_active(true);
    assert!(limiter.apply_limiter(1_900_000) < 1_900_000);
}

#[test]
fn test_soft_limiter_setters() {
    let mut limiter = SoftLimiter::new(800_000, 100_000);
    // the threshold is clamped to at least one hundredth of full scale
    limiter.set_threshold(-5);
    assert!(limiter.apply_limiter(9_000) == 9_000);
    limiter.set_threshold(700_000);
    limiter.set_knee(2_000_000);
    let r = limiter.apply_limiter(900_000);
    assert!(r <= 900_000);
    assert_eq!(limiter.name(), "SoftLimiter");
}
