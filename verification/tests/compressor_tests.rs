//! Tests for the RMS compressor.

use clearcast_core::filters::compress_rms;
use clearcast_core::filters::compressor::DB_BYPASS;

const SR: i64 = 44_100_000_000;

fn to_q(x: f64) -> i64 {
    (x * 1_000_000.0).round() as i64
}

fn db(x: f64) -> i64 {
    to_q(x)
}

fn sine_wave(freq: f64, sample_rate: f64, duration_sec: f64, amplitude: f64) -> Vec<i64> {
    let num_samples = (sample_rate * duration_sec) as usize;
    (0..num_samples)
        .map(|i| to_q(amplitude * (2.0 * std::f64::consts::PI * freq * i as f64 / sample_rate).sin()))
        .collect()
}

fn max_amp(buf: &[i64]) -> i64 {
    buf.iter().map(|x| x.abs()).max().unwrap_or(0)
}

fn rms(buf: &[i64]) -> f64 {
    let sum: f64 = buf.iter().map(|&x| {
        let v = x as f64 / 1_000_000.0;
        v * v
    }).sum();
    (sum / buf.len() as f64).sqrt()
}

#[test]
fn test_compress_rms_basic() {
    let input = sine_wave(440.0, 44100.0, 0.1, 0.8);

    let output = compress_rms(&input, db(-6.0), to_q(4.0), to_q(10.0), to_q(100.0), SR);

    assert_eq!(output.len(), input.len());

    let input_max = max_amp(&input);
    let output_max = max_amp(&output);
    assert!(output_max < input_max, "compression should reduce peak levels");
    assert!(output_max > 100_000, "signal should still be audible");

    let output_sum: i64 = output.iter().map(|x| x.abs()).sum();
    assert!(output_sum > 0, "output should not be silent");
}

#[test]
fn test_compress_rms_silent() {
    let input = vec![0i64; 1024];
    let output = compress_rms(&input, db(-20.0), to_q(4.0), to_q(10.0), to_q(100.0), SR);
    assert_eq!(output, input);

    let input: Vec<i64> = vec![];
    let output = compress_rms(&input, db(-20.0), to_q(4.0), to_q(10.0), to_q(100.0), SR);
    assert!(output.is_empty());
}

#[test]
fn test_compress_rms_short() {
    let input = vec![900_000i64, 800_000, 700_000, 600_000];
    let output = compress_rms(&input, db(-3.0), to_q(2.0), to_q(1.0), to_q(10.0), SR);
    assert_eq!(output.len(), input.len());

    let input = vec![900_000i64];
    let output = compress_rms(&input, db(-3.0), to_q(2.0), to_q(1.0), to_q(10.0), SR);
    assert_eq!(output.len(), 1);
}

#[test]
fn test_compress_rms_ratio() {
    let input = sine_wave(1000.0, 44100.0, 0.1, 0.9);

    let output_2to1 = compress_rms(&input, db(-6.0), to_q(2.0), to_q(10.0), to_q(100.0), SR);
    let output_4to1 = compress_rms(&input, db(-6.0), to_q(4.0), to_q(10.0), to_q(100.0), SR);
    let output_8to1 = compress_rms(&input, db(-6.0), to_q(8.0), to_q(10.0), to_q(100.0), SR);

    let max_2to1 = max_amp(&output_2to1);
    let max_4to1 = max_amp(&output_4to1);
    let max_8to1 = max_amp(&output_8to1);

    assert!(max_2to1 >= max_4to1, "4:1 should not increase level compared to 2:1");
    assert!(max_4to1 >= max_8to1, "8:1 should not increase level compared to 4:1");

    let rms_2to1 = rms(&output_2to1);
    let rms_4to1 = rms(&output_4to1);
    let rms_8to1 = rms(&output_8to1);

    assert!(rms_2to1 >= rms_4to1, "4:1 should not increase RMS compared to 2:1");
    assert!(rms_4to1 >= rms_8to1, "8:1 should not increase RMS compared to 4:1");
}

#[test]
fn test_compress_rms_threshold() {
    let input = sine_wave(1000.0, 44100.0, 0.1, 0.9);

    let output_high_thresh = compress_rms(&input, db(-3.0), to_q(4.0), to_q(10.0), to_q(100.0), SR);
    let output_med_thresh = compress_rms(&input, db(-12.0), to_q(4.0), to_q(10.0), to_q(100.0), SR);
    let output_low_thresh = compress_rms(&input, db(-24.0), to_q(4.0), to_q(10.0), to_q(100.0), SR);

    assert!(max_amp(&output_high_thresh) > 0, "output should not be silent");
    assert!(max_amp(&output_med_thresh) > 0, "output should not be silent");
    assert!(max_amp(&output_low_thresh) > 0, "output should not be silent");
}

#[test]
fn test_compress_rms_attack_release() {
    let input = sine_wave(1000.0, 44100.0, 0.1, 0.9);

    let output_fast = compress_rms(&input, db(-6.0), to_q(4.0), to_q(1.0), to_q(10.0), SR);
    let output_slow = compress_rms(&input, db(-6.0), to_q(4.0), to_q(50.0), to_q(200.0), SR);

    assert_eq!(output_fast.len(), input.len());
    assert_eq!(output_slow.len(), input.len());

    assert_ne!(
        output_fast, output_slow,
        "different attack/release times should produce different results"
    );

    let fast_sum: i64 = output_fast.iter().map(|x| x.abs()).sum();
    let slow_sum: i64 = output_slow.iter().map(|x| x.abs()).sum();
    assert!(fast_sum > 0, "fast attack/release output should not be silent");
    assert!(slow_sum > 0, "slow attack/release output should not be silent");
}

#[test]
fn test_compress_rms_extreme_values() {
    // values a hair above silence
    let input = vec![1i64, -2, 3, -4];
    let output = compress_rms(&input, db(-60.0), to_q(4.0), to_q(10.0), to_q(100.0), SR);
    assert_eq!(output.len(), input.len());

    // values close to full scale
    let input = vec![999_000i64, -999_000, 999_000, -999_000];
    let output = compress_rms(&input, db(-3.0), to_q(4.0), to_q(10.0), to_q(100.0), SR);
    assert_eq!(output.len(), input.len());

    // values at the representable amplitude limit
    let input = vec![500_000i64, 1_000_000_000_000, 500_000, -1_000_000_000_000, 500_000];
    let output = compress_rms(&input, db(-6.0), to_q(4.0), to_q(10.0), to_q(100.0), SR);
    assert_eq!(output.len(), input.len());
}

#[test]
fn test_compress_rms_edge_cases() {
    // a ratio of exactly one-to-one reproduces the input
    let input = sine_wave(1000.0, 44100.0, 0.1, 0.9);
    let output = compress_rms(&input, db(-6.0), to_q(1.0), to_q(10.0), to_q(100.0), SR);
    assert_eq!(output.len(), input.len());
    assert_eq!(output, input, "a one-to-one ratio must reproduce the input exactly");

    // a very high ratio acts as a limiter
    let output_limiter = compress_rms(&input, db(-6.0), to_q(100.0), to_q(10.0), to_q(100.0), SR);
    assert_eq!(output_limiter.len(), input.len());

    // the bypass threshold reproduces the input exactly
    let output_no_comp = compress_rms(&input, DB_BYPASS, to_q(4.0), to_q(10.0), to_q(100.0), SR);
    assert_eq!(output_no_comp.len(), input.len());
    assert_eq!(output_no_comp, input);

    let rms_diff: f64 = {
        let sum: f64 = input
            .iter()
            .zip(output_no_comp.iter())
            .map(|(&a, &b)| {
                let d = (a - b) as f64 / 1_000_000.0;
                d * d
            })
            .sum();
        (sum / input.len() as f64).sqrt()
    };
    assert!(rms_diff < 6e-2, "RMS difference too large: {}", rms_diff);
}

#[test]
fn test_compress_never_grows_a_sample() {
    let input = sine_wave(700.0, 44100.0, 0.05, 1.2);
    let output = compress_rms(&input, db(-10.0), to_q(3.0), to_q(5.0), to_q(80.0), SR);
    for (o, i) in output.iter().zip(input.iter()) {
        assert!(o.abs() <= i.abs(), "a compressed sample grew: {} from {}", o, i);
    }
}
