//! Tests for the whole processing chain.

use clearcast_core::processor::ClearCastProcessor;

const SR: i64 = 44_100_000_000;

fn to_q(x: f64) -> i64 {
    (x * 1_000_000.0).round() as i64
}

#[test]
fn test_processor_chain() {
    let sample_rate = 44100.0;
    let freq = 1000.0;
    let duration = 0.1;
    let num_samples = (sample_rate * duration) as usize;
    let mut signal = Vec::with_capacity(num_samples);

    for i in 0..num_samples {
        let t = i as f64 / sample_rate;
        signal.push(to_q((2.0 * std::f64::consts::PI * freq * t).sin() * 0.5));
    }

    let mut processor = ClearCastProcessor::new(SR);

    processor.configure_eq(to_q(2.0), 0, to_q(-1.0));
    processor.configure_compressor(to_q(-20.0), to_q(4.0), to_q(10.0), to_q(100.0));
    processor.set_target_rms(100_000);
    processor.set_limiter_threshold(900_000);

    let processed = processor.process_audio(&signal);

    assert_eq!(processed.len(), signal.len());

    let max_val = processed.iter().map(|x| x.abs()).max().unwrap();
    assert!(max_val > 0, "output should not be silent");

    for &sample in &processed {
        assert!(
            -1_000_000 <= sample && sample <= 1_000_000,
            "sample out of range: {}",
            sample
        );
    }
}

#[test]
fn test_empty_input() {
    let mut processor = ClearCastProcessor::new(SR);
    let result = processor.process_audio(&vec![]);
    assert!(result.is_empty());
}

#[test]
fn test_processor_with_noise_reduction() {
    // configuring noise reduction keeps the output length intact
    let signal: Vec<i64> = (0..800)
        .map(|i| to_q(0.4 * (2.0 * std::f64::consts::PI * 500.0 * i as f64 / 8000.0).sin()))
        .collect();
    let mut processor = ClearCastProcessor::new(8_000_000_000);
    processor.configure_noise_reduction(vec![10_000; 129], 256, 64, to_q(0.5));
    let out = processor.process_audio(&signal);
    assert_eq!(out.len(), signal.len());
    let max_val = out.iter().map(|x| x.abs()).max().unwrap();
    assert!(max_val > 0, "output should not be silent");
}
