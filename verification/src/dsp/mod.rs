pub mod algorithm;
pub mod signature_format;
pub mod signature_reading;

pub use signature_format::{DecodedSignature, FrequencyBand, FrequencyPeak, DATA_URI_PREFIX};
