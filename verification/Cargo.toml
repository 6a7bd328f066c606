[package]
name = "bittorrent_rust"
version = "0.1.0"
edition = "2021"
publish = false

[dependencies]
anyhow = "1"
clap = { version = "4", features = ["derive"] }
futures-util = { version = "0.3", features = ["sink"] }
hex = "0.4"
kanal = "*"
reqwest = { version = "0.12", default-features = false }
serde = { version = "1", features = ["derive"] }
serde_bencode = "0.2"
serde_json = "1"
serde_urlencoded = "0.7"
sha1 = "0.10"
tokio = { version = "1", features = ["full"] }
tokio-util = { version = "0.7", features = ["codec"] }
