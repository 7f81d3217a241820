[package]
name = "room_relay"
version = "0.1.0"
edition = "2021"
publish = false

[dependencies]
clap = { version = "4", features = ["derive"] }
futures-channel = "0.3"
futures-util = { version = "0.3", features = ["sink"] }
log = "0.4"
pretty_env_logger = "0.5"
rand = "0.8"
serde = { version = "1", features = ["derive"] }
serde_json = "1"
tokio = { version = "1", features = ["macros", "net", "rt-multi-thread"] }
tokio-tungstenite = "0.20"
tungstenite = "0.20"
