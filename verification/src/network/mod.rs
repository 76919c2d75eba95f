pub mod client;
pub mod models;

pub use models::{RecognizedSong, ShazamResponse};
