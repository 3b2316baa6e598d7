[package]
name = "zk_battleship"
version = "0.1.0"
edition = "2021"
publish = false

[dependencies]
sha2 = "0.10"
rand = "0.8"
serde = { version = "1", features = ["derive"] }
serde_json = "1"
anyhow = "1"
tiny_http = "0.12"
tokio = { version = "1", features = ["rt-multi-thread", "macros", "net", "sync"] }
tokio-tungstenite = "0.21"
futures-util = "0.3"
