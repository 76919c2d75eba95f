pub mod jiosaavn;

pub use jiosaavn::JioSaavnSong;
