[package]
name = "ghostwire"
version = "0.1.0"
edition = "2021"
publish = false

[dependencies]
tokio = { version = "*", features = ["sync", "rt-multi-thread", "macros", "time", "net"] }
chrono = "*"
axum = { version = "*", features = ["ws"] }
futures = "*"
futures-util = "*"
tokio-tungstenite = "*"
crossterm = "*"
ratatui = "*"
uuid = { version = "*", features = ["v4"] }

[dev-dependencies]
serde_json = "*"
