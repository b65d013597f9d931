//! Tests for RMS normalization and the peak normalizer.

use clearcast_core::effects::normalize_rms;
use clearcast_core::utils::normalize_audio;
use clearcast_core::math::db_to_linear;

const SCALE: i64 = 1_000_000;

fn to_q(x: f64) -> i64 {
    (x * 1_000_000.0).round() as i64
}

fn rms_of(buf: &[i64]) -> f64 {
    let sum: f64 = buf.iter().map(|&x| {
        let v = x as f64 / 1_000_000.0;
        v * v
    }).sum();
    (sum / buf.len() as f64).sqrt()
}

#[test]
fn test_normalize_rms_silent() {
    let mut silent = vec![0i64; 100];
    let original = silent.clone();
    normalize_rms(&mut silent, to_q(-12.0));
    assert_eq!(silent, original, "a silent buffer must not change");
}

#[test]
fn test_normalize_rms_simple() {
    // a square-ish signal with RMS exactly full scale
    let mut signal = vec![SCALE, -SCALE, SCALE, -SCALE];
    let target_dbfs = to_q(-12.0);
    let target_linear = 10f64.powf(-12.0 / 20.0);

    normalize_rms(&mut signal, target_dbfs);

    let rms_after = rms_of(&signal);
    assert!(
        (rms_after - target_linear).abs() < 1e-6,
        "RMS {} not within 1e-6 of target {}",
        rms_after,
        target_linear
    );
    // the waveform's shape is kept
    assert_eq!(signal[0], -signal[1]);
    assert_eq!(signal[0], signal[2]);
}

#[test]
fn test_normalize_rms_already_at_target() {
    // build a signal whose RMS is exactly the target the library
    // itself computes for -12 dBFS
    let target_dbfs = to_q(-12.0);
    let lin = db_to_linear(target_dbfs);
    let mut signal = vec![lin, -lin, lin, -lin];
    let expected = signal.clone();

    normalize_rms(&mut signal, target_dbfs);

    for (a, b) in signal.iter().zip(expected.iter()) {
        assert!(
            (a - b).abs() <= 1,
            "already-normalized signal changed: {} vs {}",
            a,
            b
        );
    }
}

#[test]
fn test_normalize_audio() {
    let mut samples = vec![500_000i64, 1_000_000, -500_000];
    normalize_audio(&mut samples);
    assert_eq!(samples, [500_000, 1_000_000, -500_000]);

    let mut samples = vec![250_000i64, 500_000, -250_000];
    normalize_audio(&mut samples);
    assert_eq!(samples, [500_000, 1_000_000, -500_000]);
}

#[test]
fn test_normalize_audio_peak_exact() {
    // for any non-silent buffer the peak lands exactly on full scale
    let mut samples = vec![123_456i64, -700_001, 5, 0];
    normalize_audio(&mut samples);
    let peak = samples.iter().map(|x| x.abs()).max().unwrap();
    assert_eq!(peak, SCALE);

    // an all-zero buffer is unchanged
    let mut zeros = vec![0i64; 8];
    normalize_audio(&mut zeros);
    assert_eq!(zeros, vec![0i64; 8]);
}

#[test]
fn test_normalize_audio_idempotent() {
    // normalizing an already-normalized buffer is a no-op
    let mut samples = vec![321_000i64, -876_543, 12_345];
    normalize_audio(&mut samples);
    let once = samples.clone();
    normalize_audio(&mut samples);
    assert_eq!(samples, once, "renormalizing must be a no-op");
}

#[test]
fn test_normalize_rms_renormalize_stable() {
    // renormalizing to the same RMS target moves nothing by more than
    // a few micro-units
    let mut signal: Vec<i64> = (0..64)
        .map(|i| to_q(0.4 * (0.3 * i as f64).sin()))
        .collect();
    let target = to_q(-12.0);
    normalize_rms(&mut signal, target);
    let once = signal.clone();
    normalize_rms(&mut signal, target);
    for (a, b) in signal.iter().zip(once.iter()) {
        assert!(
            (a - b).abs() <= 2,
            "renormalizing moved a sample: {} vs {}",
            a,
            b
        );
    }
}
