//! Tests for the three-band parametric equalizer.

use clearcast_core::filters::equalizer::parametric_eq;

const SR: i64 = 44_100_000_000;

fn to_q(x: f64) -> i64 {
    (x * 1_000_000.0).round() as i64
}

fn sine_wave(freq: f64, sample_rate: f64, duration_sec: f64, amplitude: f64) -> Vec<i64> {
    let num_samples = (sample_rate * duration_sec) as usize;
    (0..num_samples)
        .map(|i| to_q(amplitude * (2.0 * std::f64::consts::PI * freq * i as f64 / sample_rate).sin()))
        .collect()
}

#[test]
fn test_parametric_eq_identity() {
    // with all gains flat the output matches the input closely
    let input = vec![500_000i64, -300_000, 800_000, -100_000];
    let output = parametric_eq(&input, SR, 0, 0, 0);

    for (i, o) in input.iter().zip(output.iter()) {
        assert!(
            (i - o).abs() <= 100,
            "flat equalization moved a sample: {} vs {}",
            i,
            o
        );
    }
}

#[test]
fn test_no_clipping() {
    let signal = sine_wave(440.0, 44100.0, 0.1, 0.9);

    // a large boost that could saturate without the headroom logic
    let processed = parametric_eq(&signal, SR, to_q(12.0), to_q(12.0), to_q(12.0));

    assert!(
        processed.iter().all(|&x| -1_000_000 <= x && x <= 1_000_000),
        "the equalizer must not saturate"
    );
}

#[test]
fn test_silent_input() {
    let silent = vec![0i64; 1000];

    let processed = parametric_eq(&silent, SR, to_q(6.0), 0, 0);

    assert!(
        processed.iter().all(|&x| x.abs() < 2),
        "the equalizer must not generate noise from silence"
    );
}

#[test]
fn equalizer_tests_test_edge_cases() {
    // empty input
    let empty: Vec<i64> = vec![];
    let result = parametric_eq(&empty, SR, to_q(6.0), 0, 0);
    assert!(result.is_empty(), "should return empty vec for empty input");

    // ordinary input keeps its length
    let signal = sine_wave(1000.0, 44100.0, 0.05, 0.5);
    let result = parametric_eq(&signal, SR, to_q(6.0), to_q(-6.0), to_q(3.0));
    assert_eq!(result.len(), signal.len(), "output length should match input length");

    // gains far outside the documented range are clamped, not applied
    let result = parametric_eq(&signal, SR, to_q(48.0), 0, 0);
    assert_eq!(result.len(), signal.len());
    assert!(result.iter().all(|&x| x.abs() <= 1_000_000));
}

#[test]
fn test_band_boost_changes_signal() {
    // boosting a band leaves the signal different from the input
    let signal = sine_wave(150.0, 44100.0, 0.1, 0.4);
    let processed = parametric_eq(&signal, SR, to_q(6.0), 0, 0);
    assert_eq!(processed.len(), signal.len());
    assert_ne!(processed, signal);
    let energy: f64 = processed.iter().map(|&x| {
        let v = x as f64 / 1_000_000.0;
        v * v
    }).sum();
    assert!(energy > 0.0);
}
