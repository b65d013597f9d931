//! Tests for the crossover filter bank and the multiband compressor.

use clearcast_core::filters::multiband::BandParams;
use clearcast_core::filters::multiband::MultibandCompressor;
use clearcast_core::filters::multiband::butterworth_bandpass;

const SR: i64 = 44_100_000_000;

fn to_q(x: f64) -> i64 {
    (x * 1_000_000.0).round() as i64
}

fn sine_wave(freq: f64, sample_rate: f64, duration_sec: f64) -> Vec<i64> {
    let num_samples = (sample_rate * duration_sec) as usize;
    (0..num_samples)
        .map(|i| to_q((2.0 * std::f64::consts::PI * freq * i as f64 / sample_rate).sin()))
        .collect()
}

/// Runs a designed section over a signal, in floating point, the way a
/// caller would inspect its response.
fn run_filter(b: &[i64], a: &[i64], signal: &[i64]) -> Vec<f64> {
    let bf: Vec<f64> = b.iter().map(|&c| c as f64 / 1_000_000.0).collect();
    let af: Vec<f64> = a.iter().map(|&c| c as f64 / 1_000_000.0).collect();
    let mut y = vec![0.0f64; signal.len()];
    let mut x_hist = [0.0f64; 3];
    let mut y_hist = [0.0f64; 3];
    for i in 0..signal.len() {
        x_hist[2] = x_hist[1];
        x_hist[1] = x_hist[0];
        x_hist[0] = signal[i] as f64 / 1_000_000.0;
        y[i] = bf[0] * x_hist[0] + bf[1] * x_hist[1] + bf[2] * x_hist[2]
            - af[1] * y_hist[0] - af[2] * y_hist[1];
        y_hist[2] = y_hist[1];
        y_hist[1] = y_hist[0];
        y_hist[0] = y[i];
    }
    y
}

fn energy(buf: &[f64]) -> f64 {
    buf.iter().map(|&x| x * x).sum()
}

#[test]
fn test_bandpass_filter() {
    let signal = sine_wave(100.0, 44100.0, 0.1);

    // a bandpass that should pass 80-120 Hz
    let (b, a) = butterworth_bandpass(80_000_000, 120_000_000, SR);
    let y = run_filter(&b, &a, &signal);

    let start_idx = signal.len() / 10;
    let end_idx = signal.len() * 9 / 10;

    let input_f: Vec<f64> = signal.iter().map(|&x| x as f64 / 1_000_000.0).collect();
    let input_energy = energy(&input_f[start_idx..end_idx]);
    let output_energy = energy(&y[start_idx..end_idx]);

    assert!(output_energy > 1e-10, "output signal energy is too low (near zero)");

    let energy_ratio_db = 10.0 * (output_energy / input_energy).log10();
    assert!(
        energy_ratio_db > -10.0,
        "output energy is too low: expected > -10 dB, got {:.2} dB",
        energy_ratio_db
    );

    // the output should correlate strongly with the input
    let mut cross = 0.0f64;
    for i in start_idx..end_idx {
        cross += input_f[i] * y[i];
    }
    let normalized_correlation = cross / (input_energy.sqrt() * output_energy.sqrt());
    assert!(
        normalized_correlation > 0.9,
        "output does not correlate with input: {:.4}",
        normalized_correlation
    );

    // the output should keep the input's frequency, measured by
    // zero crossings in both directions over the settled region
    let mut zero_crossings = 0;
    for i in (start_idx + 1)..end_idx {
        if (y[i - 1] <= 0.0 && y[i] > 0.0) || (y[i - 1] >= 0.0 && y[i] < 0.0) {
            zero_crossings += 1;
        }
    }
    let duration_sec = (end_idx - start_idx) as f64 / 44100.0;
    let measured_freq = zero_crossings as f64 / (2.0 * duration_sec);
    assert!(
        (measured_freq - 100.0).abs() < 5.0,
        "output frequency too far from 100 Hz: {:.1}",
        measured_freq
    );
}

#[test]
fn test_multiband_compressor() {
    let mut signal = sine_wave(100.0, 44100.0, 0.1);
    let high = sine_wave(1000.0, 44100.0, 0.1);
    for (s, &h) in signal.iter_mut().zip(high.iter()) {
        *s += h / 2;
    }

    let bands = vec![
        BandParams {
            low_freq: 0,
            high_freq: 250_000_000,
            threshold: -20_000_000,
            ratio: 4_000_000,
            attack_ms: 10_000_000,
            release_ms: 100_000_000,
        },
        BandParams {
            low_freq: 250_000_000,
            high_freq: 22_050_000_000,
            threshold: -20_000_000,
            ratio: 4_000_000,
            attack_ms: 10_000_000,
            release_ms: 100_000_000,
        },
    ];

    let mut compressor = MultibandCompressor::new(bands, SR);
    let output = compressor.process(&signal);

    assert_eq!(output.len(), signal.len());
    assert_ne!(output, signal);

    let output_energy: f64 = output.iter().map(|&x| {
        let v = x as f64 / 1_000_000.0;
        v * v
    }).sum();
    assert!(output_energy > 0.0);
}

#[test]
fn test_crossover_band_separation() {
    // a pure 100 Hz tone passes the low band with much more energy
    // than the high band
    let signal = sine_wave(100.0, 44100.0, 0.1);
    let (bl, al) = butterworth_bandpass(0, 250_000_000, SR);
    let (bh, ah) = butterworth_bandpass(250_000_000, 22_050_000_000, SR);

    let low = run_filter(&bl, &al, &signal);
    let high = run_filter(&bh, &ah, &signal);

    let start_idx = signal.len() / 10;
    let end_idx = signal.len() * 9 / 10;
    let low_energy = energy(&low[start_idx..end_idx]);
    let high_energy = energy(&high[start_idx..end_idx]);

    assert!(
        low_energy > 1.5 * high_energy,
        "low band energy {} not materially above high band energy {}",
        low_energy,
        high_energy
    );

    // with the low band's edges bracketing the tone the separation is
    // far stronger
    let (bl2, al2) = butterworth_bandpass(0, 120_000_000, SR);
    let (bh2, ah2) = butterworth_bandpass(120_000_000, 22_050_000_000, SR);
    let low2 = run_filter(&bl2, &al2, &signal);
    let high2 = run_filter(&bh2, &ah2, &signal);
    let low2_energy = energy(&low2[start_idx..end_idx]);
    let high2_energy = energy(&high2[start_idx..end_idx]);
    assert!(
        low2_energy > 10.0 * high2_energy,
        "bracketing low band energy {} not far above high band energy {}",
        low2_energy,
        high2_energy
    );
}

#[test]
fn test_multiband_unit_ratio_keeps_band_sum() {
    // with every band at a one-to-one ratio the compressor is a pure
    // crossover: the output is the sum of the band-limited signals,
    // which for a tone inside one band carries most of its energy
    // the tone sits inside the first band, whose edges bracket it
    // closely enough for the bandpass to pass it at near unity
    let signal = sine_wave(100.0, 44100.0, 0.1);
    let bands = vec![
        BandParams {
            low_freq: 0,
            high_freq: 120_000_000,
            threshold: -20_000_000,
            ratio: 1_000_000,
            attack_ms: 10_000_000,
            release_ms: 100_000_000,
        },
        BandParams {
            low_freq: 120_000_000,
            high_freq: 22_050_000_000,
            threshold: -20_000_000,
            ratio: 1_000_000,
            attack_ms: 10_000_000,
            release_ms: 100_000_000,
        },
    ];
    let mut compressor = MultibandCompressor::new(bands, SR);
    let output = compressor.process(&signal);
    assert_eq!(output.len(), signal.len());

    let start_idx = signal.len() / 10;
    let end_idx = signal.len() * 9 / 10;
    let sig_f: Vec<f64> = signal.iter().map(|&x| x as f64 / 1_000_000.0).collect();
    let out_f: Vec<f64> = output.iter().map(|&x| x as f64 / 1_000_000.0).collect();
    let in_energy = energy(&sig_f[start_idx..end_idx]);
    let out_energy = energy(&out_f[start_idx..end_idx]);
    let ratio = out_energy / in_energy;
    assert!(
        ratio > 0.2 && ratio < 3.0,
        "band split and recombine at unit ratio lost the signal: energy ratio {}",
        ratio
    );
}

#[test]
fn test_multiband_stream_continuity() {
    // feeding a stream in two buffers equals feeding it whole: the
    // filter histories and the per-band envelopes and gains persist
    // across calls
    let signal = sine_wave(100.0, 44100.0, 0.1);
    let half = signal.len() / 2;
    let first: Vec<i64> = signal[..half].to_vec();
    let second: Vec<i64> = signal[half..].to_vec();

    let bands = vec![
        BandParams {
            low_freq: 0,
            high_freq: 250_000_000,
            threshold: -20_000_000,
            ratio: 4_000_000,
            attack_ms: 10_000_000,
            release_ms: 100_000_000,
        },
        BandParams {
            low_freq: 250_000_000,
            high_freq: 22_050_000_000,
            threshold: -20_000_000,
            ratio: 4_000_000,
            attack_ms: 10_000_000,
            release_ms: 100_000_000,
        },
    ];

    let mut split = MultibandCompressor::new(bands.clone(), SR);
    let mut out = split.process(&first);
    out.extend_from_slice(&split.process(&second));

    let mut whole = MultibandCompressor::new(bands, SR);
    let expected = whole.process(&signal);

    assert_eq!(out, expected, "stream state must carry across buffer boundaries");
}
