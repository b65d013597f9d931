//! Tests for the spectral noise reducer and the noise profile
//! estimator.

use clearcast_core::filters::wiener_filter::estimate_noise_profile;
use clearcast_core::filters::wiener_filter::reduce_noise_wiener;

fn to_q(x: f64) -> i64 {
    (x * 1_000_000.0).round() as i64
}

/// A small deterministic pseudo-random generator for noise signals.
struct Lcg(u64);

impl Lcg {
    fn next_unit(&mut self) -> f64 {
        self.0 = self.0.wrapping_mul(6364136223846793005).wrapping_add(1442695040888963407);
        ((self.0 >> 11) as f64) / ((1u64 << 53) as f64)
    }
}

fn white_noise(n: usize, amplitude: f64, seed: u64) -> Vec<f64> {
    let mut rng = Lcg(seed);
    (0..n).map(|_| (rng.next_unit() - 0.5) * 2.0 * amplitude).collect()
}

fn rms(buf: &[f64]) -> f64 {
    let sum: f64 = buf.iter().map(|&x| x * x).sum();
    (sum / buf.len() as f64).sqrt()
}

fn to_buf(xs: &[f64]) -> Vec<i64> {
    xs.iter().map(|&x| to_q(x)).collect()
}

fn to_float(xs: &[i64]) -> Vec<f64> {
    xs.iter().map(|&x| x as f64 / 1_000_000.0).collect()
}

#[test]
fn test_estimate_noise_profile() {
    let noise: Vec<i64> = to_buf(&white_noise(1024, 0.05, 7));

    let profile = estimate_noise_profile(&noise, 256);

    assert_eq!(profile.len(), 129);

    for &value in &profile {
        assert!(value >= 0);
    }
}

#[test]
fn test_noise_estimation() {
    let num_samples = 4410;
    let noise_amplitude = 0.15;
    let noise = to_buf(&white_noise(num_samples, noise_amplitude, 99));

    let estimated_profile = estimate_noise_profile(&noise, 1024);
    let profile_f = to_float(&estimated_profile);

    let mean_amplitude: f64 = profile_f.iter().sum::<f64>() / profile_f.len() as f64;

    // the per-bin magnitudes are transform-scaled; compare shape, not
    // absolute level: the profile should be flat for white noise
    let variance = profile_f
        .iter()
        .map(|&x| (x - mean_amplitude) * (x - mean_amplitude))
        .sum::<f64>()
        / profile_f.len() as f64;
    let std_dev = variance.sqrt();

    assert!(mean_amplitude > 0.0, "white noise must leave a non-zero profile");
    assert!(
        std_dev < mean_amplitude * 0.5,
        "noise profile not flat enough: std_dev = {}, mean = {}",
        std_dev,
        mean_amplitude
    );
}

#[test]
fn test_reduce_noise_wiener_basic() {
    let sample_rate = 44100.0;
    let freq = 1000.0;
    let duration = 0.1;
    let num_samples = (sample_rate * duration) as usize;

    // two tones, with white noise on top
    let clean_signal: Vec<f64> = (0..num_samples)
        .map(|i| {
            let t = i as f64 / sample_rate;
            0.7 * (2.0 * std::f64::consts::PI * freq * t).sin()
                + 0.3 * (2.0 * std::f64::consts::PI * 3.0 * freq * t).sin()
        })
        .collect();
    let noise: Vec<f64> = white_noise(num_samples, 0.1, 42);
    let noisy_signal: Vec<f64> = clean_signal
        .iter()
        .zip(noise.iter())
        .map(|(&s, &n)| (s + n).clamp(-1.0, 1.0))
        .collect();

    let noise_profile = estimate_noise_profile(&to_buf(&noise), 1024);
    let processed = reduce_noise_wiener(
        &to_buf(&noisy_signal),
        &noise_profile,
        1024,
        256,
        to_q(0.85),
    );

    assert_eq!(processed.len(), noisy_signal.len());
    let processed_f = to_float(&processed);

    // skip the edges where the analysis has not settled
    let analysis_start = num_samples / 10;
    let analysis_end = num_samples * 9 / 10;

    let clean_energy: f64 = clean_signal[analysis_start..analysis_end]
        .iter()
        .map(|x| x * x)
        .sum();
    let proc_energy: f64 = processed_f[analysis_start..analysis_end]
        .iter()
        .map(|x| x * x)
        .sum();

    assert!(proc_energy > 1e-10, "the processed signal is silent");

    let energy_ratio = (proc_energy / clean_energy).sqrt();
    assert!(
        energy_ratio > 0.1 && energy_ratio < 5.0,
        "processed energy out of range: {:.2}x",
        energy_ratio
    );

    // the processed signal should still follow the clean one
    let mut cross = 0.0f64;
    let mut clean_auto = 0.0f64;
    let mut proc_auto = 0.0f64;
    for i in analysis_start..analysis_end {
        cross += clean_signal[i] * processed_f[i];
        clean_auto += clean_signal[i] * clean_signal[i];
        proc_auto += processed_f[i] * processed_f[i];
    }
    let correlation = cross / (clean_auto * proc_auto).sqrt();
    assert!(
        correlation > 0.2,
        "the processed signal no longer follows the clean one: {:.4}",
        correlation
    );
}

#[test]
fn wiener_filter_tests_test_edge_cases() {
    let empty: Vec<i64> = vec![];
    let noise_profile = vec![100_000i64; 1024 / 2 + 1];

    let result = reduce_noise_wiener(&empty, &noise_profile, 1024, 256, to_q(0.9));
    assert!(result.is_empty(), "should return empty vec for empty input");

    let short_input = vec![100_000i64, -100_000, 50_000];
    let result = reduce_noise_wiener(&short_input, &noise_profile, 1024, 256, to_q(0.9));
    assert_eq!(result.len(), short_input.len(), "output length should match input length");

    let zero_noise = vec![0i64; 1024 / 2 + 1];
    let result = reduce_noise_wiener(&short_input, &zero_noise, 1024, 256, to_q(0.9));
    assert_eq!(result.len(), short_input.len());
}

#[test]
fn test_degenerate_inputs_pass_through() {
    let input = vec![100_000i64, -200_000, 300_000];
    // a zero transform size, a zero hop and an empty profile are not
    // errors: the input comes back unchanged
    assert_eq!(reduce_noise_wiener(&input, &vec![10_000], 0, 16, 0), input);
    assert_eq!(reduce_noise_wiener(&input, &vec![10_000], 64, 0, 0), input);
    assert_eq!(reduce_noise_wiener(&input, &vec![], 64, 16, 0), input);
    assert_eq!(estimate_noise_profile(&vec![], 256).len(), 0);
    assert_eq!(estimate_noise_profile(&input, 0).len(), 0);
}

#[test]
fn test_zero_profile_keeps_signal_energy() {
    // with an all-zero noise profile and no smoothing the Wiener gain
    // is as close to unity as the regularization allows, so the
    // reconstruction keeps the signal's energy within a bounded
    // tolerance
    let sample_rate = 8000.0;
    let num_samples = 1600;
    let signal_f: Vec<f64> = (0..num_samples)
        .map(|i| 0.5 * (2.0 * std::f64::consts::PI * 200.0 * i as f64 / sample_rate).sin())
        .collect();
    let signal = to_buf(&signal_f);
    let zero_profile = vec![0i64; 129];

    let processed = reduce_noise_wiener(&signal, &zero_profile, 256, 64, 0);
    assert_eq!(processed.len(), signal.len());

    let start = num_samples / 10;
    let end = num_samples * 9 / 10;
    let in_rms = rms(&signal_f[start..end]);
    let out_rms = rms(&to_float(&processed)[start..end]);
    let ratio = out_rms / in_rms;
    assert!(
        ratio > 0.8 && ratio < 1.25,
        "energy not preserved under a zero noise profile: ratio {}",
        ratio
    );
}
