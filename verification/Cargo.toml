[package]
name = "coinbase_websocket"
version = "0.1.0"
edition = "2021"
publish = false

[dependencies]
serde = { version = "1", features = ["derive"] }
serde_json = "1"
tokio = { version = "1", features = ["macros", "rt-multi-thread"] }
tokio-tungstenite = "*"
futures-util = "0.3"
log = "0.4"
env_logger = "*"
