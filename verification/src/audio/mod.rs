pub mod capture;
pub mod resampler;

pub use capture::{AudioSourceMode, RingBuffer};
pub use resampler::AudioResampler;
