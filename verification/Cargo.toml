[package]
name = "stream-downloader"
version = "0.1.0"
edition = "2021"
publish = false

[dependencies]
url = "2"
scraper = "*"
serde = { version = "1", features = ["derive"] }
serde_json = "1"
reqwest = { version = "0.12", default-features = false, features = ["json", "cookies", "rustls-tls"] }
tokio = { version = "1", features = ["rt-multi-thread", "macros", "fs", "io-util", "time"] }
clap = { version = "4", features = ["derive"] }
thiserror = "2"
ffmpeg-sidecar = "*"
