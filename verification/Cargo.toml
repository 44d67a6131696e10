[package]
name = "remote_term"
version = "0.1.0"
edition = "2021"
publish = false

[dependencies]
uuid = { version = "1", features = ["v4"] }
serde = { version = "1", features = ["derive"] }
serde_json = "1"
tokio = { version = "1", features = ["net", "rt", "io-util", "sync"] }
futures = "0.3"
parking_lot = "0.12"
anyhow = "1"
dirs = "*"
russh = "*"
alacritty_terminal = "*"
