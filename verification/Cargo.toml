[package]
name = "tile_download_tool"
version = "0.1.0"
edition = "2021"
publish = false

[dependencies]
anyhow = "1"
clap = { version = "4", features = ["derive"] }
flume = "0.11"
futures-util = "0.3"
indicatif = "0.17"
pmtiles = { version = "*", features = ["mmap-async-tokio", "write"] }
regex = "1"
reqwest = { version = "0.12", default-features = false, features = ["rustls-tls"] }
serde = { version = "1", features = ["derive"] }
serde_json = "1"
tempfile = "3"
tokio = { version = "1", features = ["full"] }
url = "2"
