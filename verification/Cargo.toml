[package]
name = "bombermanterm"
version = "0.1.0"
edition = "2021"
publish = false

[dependencies]
crossterm = "*"
image = { version = "0.25", default-features = false, features = ["png"] }
rand = "*"
ratatui = "*"
rodio = { version = "*", default-features = false, features = ["playback"] }
serde = { version = "1", features = ["derive"] }
serde_json = "1"
tokio = { version = "1", features = ["io-util", "macros", "net", "rt", "rt-multi-thread", "sync", "time"] }
