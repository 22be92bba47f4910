[package]
name = "bittorrent"
version = "0.1.0"
edition = "2021"
publish = false

[dependencies]
anyhow = "=1.0.104"
clap = { version = "=4.6.7", features = ["derive"] }
hex = "=0.4.3"
reqwest = "=0.11.27"
serde_json = "=1.0.154"
serde_urlencoded = "=0.7.1"
sha1 = "=0.10.7"
tokio = { version = "=1.54.1", features = ["full"] }

[dev-dependencies]
serde_bencode = "0.2"
