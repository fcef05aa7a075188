[package]
name = "rws_chat"
version = "0.1.0"
edition = "2021"
publish = false

[dependencies]
uuid = { version = "*", features = ["v4"] }
chrono = "*"
tokio = { version = "*", features = ["full"] }
tokio-tungstenite = "*"
futures-util = "*"
anyhow = "*"
url = "*"
clap = { version = "*", features = ["derive"] }
crossterm = "*"
ratatui = "*"

[dev-dependencies]
serde_json = "*"
