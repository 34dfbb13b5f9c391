[package]
name = "torrent_core"
version = "0.1.0"
edition = "2021"
publish = false

[dependencies]
sha1 = "0.10"
url = "2"
hyper = { version = "0.14", features = ["client", "http1", "tcp"] }
hyper-tls = "0.5"
tokio = { version = "1", features = ["full"] }
tokio-util = { version = "0.7", features = ["codec"] }
bytes = "1"
log = "0.4"
serde = { version = "1", features = ["derive"] }
serde_bytes = "0.11"
serde_bencode = "0.2"
