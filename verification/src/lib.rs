//! Verified core of a Shazam-style audio recognition daemon: the capture
//! ring buffer, the landmark signature binary format, the recognition
//! response model and the daemon's decision logic.

pub mod dsp;
pub mod audio;
pub mod text;
pub mod network;
pub mod daemon;
pub mod history;
pub mod mpris;
pub mod downloader;
