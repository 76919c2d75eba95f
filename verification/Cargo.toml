[package]
name = "shazam_daemon"
version = "0.1.0"
edition = "2021"
publish = false

[dependencies]
base64 = "0.22"
byteorder = "1"
crc32fast = "1"
chrono = { version = "0.4", default-features = false, features = ["clock"] }
clap = { version = "4", features = ["derive"] }
libc = "0.2"
mp4ameta = "*"
realfft = "3"
rustfft = "6"
reqwest = { version = "0.12", default-features = false, features = ["json", "rustls-tls"] }
serde = { version = "1", features = ["derive"] }
serde_json = "1"
tokio = { version = "1", features = ["full"] }
uuid = { version = "1", features = ["v4"] }
zbus = { version = "5", default-features = false, features = ["tokio"] }
