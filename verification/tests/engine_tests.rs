//! Tests for the audio engine: construction, the noise gate, the
//! soft-knee limiter and peak normalization.

use clearcast_core::AudioEngine;
use clearcast_core::AudioProcessingError;
use clearcast_core::engine::LimiterConfig;

const SCALE: i64 = 1_000_000;

fn max_amp(buf: &[i64]) -> i64 {
    buf.iter().map(|x| x.abs()).max().unwrap_or(0)
}

#[test]
fn mod_test_audio_engine_creation() {
    let _engine = AudioEngine::new();

    let _engine = AudioEngine::with_settings(100_000, 900_000).unwrap();

    let limiter = LimiterConfig {
        threshold: 800_000,
        knee_width: 100_000,
        make_up_gain: 2_000_000,
        ratio: 10_000_000,
    };
    let _engine = AudioEngine::with_limiter(100_000, 900_000, limiter).unwrap();

    assert!(AudioEngine::with_settings(-100_000, 500_000).is_err());
    assert!(AudioEngine::with_settings(1_100_000, 500_000).is_err());
    assert!(AudioEngine::with_settings(500_000, -100_000).is_err());
    assert!(AudioEngine::with_settings(500_000, 1_100_000).is_err());

    let invalid_limiter = LimiterConfig { threshold: 1_100_000, ..Default::default() };
    assert!(AudioEngine::with_limiter(100_000, 900_000, invalid_limiter).is_err());

    let invalid_limiter = LimiterConfig { ratio: 500_000, ..Default::default() };
    assert!(AudioEngine::with_limiter(100_000, 900_000, invalid_limiter).is_err());
}

#[test]
fn test_process() {
    let engine = AudioEngine::new();

    assert!(matches!(
        engine.process(vec![]).unwrap_err(),
        AudioProcessingError::EmptyBuffer
    ));

    let input = vec![100_000i64, 200_000, 300_000, -400_000, 500_000];
    let output = engine.process(input.clone()).unwrap();
    assert_eq!(output.len(), input.len());

    assert!(output.iter().all(|&x| x <= SCALE && x >= -SCALE));

    let zeros = vec![0i64; 10];
    let output = engine.process(zeros).unwrap();
    assert!(output.iter().all(|&x| x == 0));
}

#[test]
fn mod_test_noise_reduction() {
    // a ten percent gate: values below 0.06 of full scale go to zero
    let engine = AudioEngine::with_settings(100_000, SCALE).unwrap();

    let signal = vec![50_000i64, 500_000, 60_000, -400_000, 30_000, 600_000, -20_000];
    let mut audio = signal.clone();

    engine.apply_noise_reduction(&mut audio).unwrap();

    assert_eq!(audio[0], 0, "value 0.05 < 0.06 should be zeroed out");
    assert_eq!(audio[4], 0, "value 0.03 < 0.06 should be zeroed out");
    assert_eq!(audio[6], 0, "value -0.02 < 0.06 should be zeroed out");

    assert_ne!(audio[1], 0, "value 0.5 should not be zeroed out");
    assert_ne!(audio[3], 0, "value -0.4 should not be zeroed out");
    assert_ne!(audio[5], 0, "value 0.6 should not be zeroed out");

    let mut empty: Vec<i64> = vec![];
    assert!(matches!(
        engine.apply_noise_reduction(&mut empty).unwrap_err(),
        AudioProcessingError::EmptyBuffer
    ));

    let processed = engine
        .process(vec![50_000, 500_000, 60_000, -400_000, 30_000, 600_000, -20_000])
        .unwrap();

    let peak = max_amp(&processed);
    assert!(
        (peak - SCALE).abs() <= 200_000,
        "expected max amplitude close to 1.0, got {}",
        peak
    );

    assert!(processed[3] < 0, "sign should be preserved for negative values");
    assert!(processed[0].abs() < 10, "value below threshold should be zeroed out");
    assert!(processed[2].abs() > 0, "value at threshold should be preserved");
    assert!(processed[4].abs() < 10);
    assert!(processed[6].abs() < 10);
}

#[test]
fn mod_test_normalization() {
    let engine = AudioEngine::with_settings(0, 800_000).unwrap();

    let signal = vec![100_000i64, -900_000, 500_000, -1_500_000, 700_000];
    let result = engine.process(signal).unwrap();
    let peak = max_amp(&result);
    assert!(peak <= 800_000, "max amplitude {} exceeds target peak 0.8", peak);

    let signal = vec![0i64, 0, 10_000_000, 0, 0];
    let result = engine.process(signal).unwrap();
    let peak = max_amp(&result);
    assert!(
        (peak - 800_000).abs() < 10_000,
        "expected max amplitude to be 0.8, got {}",
        peak
    );

    let signal = vec![100_000i64, -200_000, 300_000, -400_000, 500_000];
    let result = engine.process(signal).unwrap();
    let peak = max_amp(&result);
    assert!(
        (peak - 800_000).abs() < 10_000,
        "expected max amplitude to be 0.8, got {}",
        peak
    );

    let signal = vec![0i64, 0, 0];
    let result = engine.process(signal).unwrap();
    assert_eq!(result, vec![0, 0, 0]);

    let result = AudioEngine::new().process(vec![]);
    assert!(matches!(result, Err(AudioProcessingError::EmptyBuffer)));
}

#[test]
fn test_soft_limiter() {
    let limiter = LimiterConfig {
        threshold: 500_000,
        knee_width: 200_000,
        make_up_gain: 0,
        ratio: 10_000_000,
    };

    let engine = AudioEngine::with_limiter(0, SCALE, limiter).unwrap();

    let signal = vec![300_000i64, 600_000, 1_000_000, -300_000, -600_000, -1_000_000];
    let result = engine.process(signal).unwrap();

    assert_ne!(result[0], 0, "value below threshold should not be zero");
    assert!(result[0] > 0, "positive value should remain positive");

    assert_ne!(result[3], 0, "value below threshold should not be zero");
    assert!(result[3] < 0, "negative value should remain negative");

    assert!(result[1].abs() <= SCALE, "value should be limited to 1.0");
    assert!(result[2].abs() <= SCALE, "value should be limited to 1.0");
    assert!(result[4].abs() <= SCALE, "value should be limited to 1.0");
    assert!(result[5].abs() <= SCALE, "value should be limited to 1.0");

    let limiter = LimiterConfig {
        threshold: 500_000,
        knee_width: 200_000,
        make_up_gain: 6_000_000,
        ratio: 10_000_000,
    };

    let engine = AudioEngine::with_limiter(0, SCALE, limiter).unwrap();
    let signal = vec![100_000i64];
    let result = engine.process(signal).unwrap();
    assert!(
        result[0] >= 100_000 * 2 * 9 / 10,
        "make-up gain not applied correctly"
    );
}

#[test]
fn lib_test_audio_engine_creation() {
    let engine = AudioEngine::new();
    let result = engine.process(vec![100_000, -200_000, 300_000, -400_000]).unwrap();
    assert_eq!(result.len(), 4);

    let engine = AudioEngine::with_settings(100_000, 900_000).unwrap();
    let result = engine.process(vec![100_000, -200_000, 300_000, -400_000]).unwrap();
    assert_eq!(result.len(), 4);

    assert!(AudioEngine::with_settings(-100_000, 500_000).is_err());
    assert!(AudioEngine::with_settings(500_000, 1_100_000).is_err());
}

#[test]
fn lib_test_noise_reduction() {
    let engine = AudioEngine::with_settings(100_000, SCALE).unwrap();

    let signal = vec![50_000i64, 500_000, 60_000, -400_000, 30_000, 600_000, -20_000];
    let result = engine.process(signal).unwrap();

    assert_eq!(result[0], 0, "value 0.05 < 0.06 should be zeroed out");
    assert_eq!(result[4], 0, "value 0.03 < 0.06 should be zeroed out");
    assert_eq!(result[6], 0, "value -0.02 < 0.06 should be zeroed out");

    // 0.5 scaled by 1.0 / 0.6
    let expected = 500_000f64 / 600_000f64;
    let actual = result[1].abs() as f64 / SCALE as f64;
    assert!(
        (actual - expected).abs() / expected <= 0.01,
        "value 0.5 should be preserved and normalized: expected {}, got {}",
        expected,
        actual
    );

    if result[2] != 0 {
        let expected = 60_000f64 / 600_000f64;
        let got = result[2].abs() as f64 / SCALE as f64;
        assert!(
            (got - expected).abs() < 0.01,
            "value at threshold should be zero or normalized: expected {}, got {}",
            expected,
            got
        );
    }

    let expected = 400_000f64 / 600_000f64;
    assert!(
        (result[3].abs() as f64 / SCALE as f64 - expected).abs() < 0.01,
        "value -0.4 should be preserved and normalized"
    );

    assert!(
        (result[5].abs() - SCALE).abs() < 10_000,
        "maximum value 0.6 should be normalized to 1.0, got {}",
        result[5]
    );

    assert!(result[3] < 0, "sign should be preserved for negative values");
}

#[test]
fn lib_test_normalization() {
    let engine = AudioEngine::with_settings(0, 500_000).unwrap();

    let signal = vec![100_000i64, -500_000, 300_000];
    let result = engine.process(signal).unwrap();
    assert_eq!(result[1], -500_000);

    let signal = vec![100_000i64, -250_000, 150_000];
    let result = engine.process(signal).unwrap();
    assert_eq!(result[1], -500_000);
}

#[test]
fn test_empty_buffer() {
    let engine = AudioEngine::new();
    assert!(matches!(
        engine.process(vec![]).unwrap_err(),
        AudioProcessingError::EmptyBuffer
    ));
}

#[test]
fn test_limiter_bounds_any_amplitude() {
    // the hard clamp holds for arbitrarily large inputs
    let engine = AudioEngine::with_settings(0, 950_000).unwrap();
    let mut huge = vec![
        1_000_000_000_000i64,
        -1_000_000_000_000,
        999_999_999_999,
        -123_456_789_012,
        42,
    ];
    engine.apply_soft_limiter(&mut huge);
    for &x in &huge {
        assert!(x.abs() <= 950_000, "limited sample {} exceeds the target peak", x);
    }
}

#[test]
fn test_limiter_knee_scenario() {
    // threshold 0.5, knee 0.2, ratio 10, applied to a full-scale sample
    let limiter = LimiterConfig {
        threshold: 500_000,
        knee_width: 200_000,
        make_up_gain: 0,
        ratio: 10_000_000,
    };
    let engine = AudioEngine::with_limiter(0, SCALE, limiter).unwrap();
    let mut buf = vec![1_000_000i64];
    engine.apply_soft_limiter(&mut buf);
    assert!(buf[0].abs() <= SCALE, "|output| must stay within 1.0");
    assert!(buf[0].abs() < 1_000_000, "output must be smaller than the input");
}

#[test]
fn test_error_message() {
    let err = AudioProcessingError::EmptyBuffer;
    assert_eq!(err.message(), "Empty audio buffer provided");
}
