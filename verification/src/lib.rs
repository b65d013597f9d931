//! Core audio processing library: noise reduction, spectral shaping,
//! multiband dynamics, soft limiting and loudness normalization.
//!
//! All signal amplitudes are fixed-point values in micro-units: the
//! full-scale amplitude 1.0 is represented by the integer `SCALE`
//! (one million).  Every stage takes a buffer of such samples and
//! returns a buffer of the same length.

pub mod fixed;
pub mod math;
pub mod utils;
pub mod effects;
pub mod engine;
pub mod filters;
pub mod processor;

pub use engine::AudioEngine;
pub use engine::AudioProcessingError;
