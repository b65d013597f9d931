//! Buffer-level effects: RMS loudness normalization and the soft
//! limiter with its hyperbolic-tangent transfer curve.

pub mod normalize;
pub mod soft_limiter;

pub use normalize::normalize_rms;
pub use soft_limiter::SoftLimiter;
pub use soft_limiter::soft_limit_buffer;
