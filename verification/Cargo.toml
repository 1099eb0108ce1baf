[package]
name = "voicevox_chat"
version = "0.1.0"
edition = "2021"
publish = false

[dependencies]
color-eyre = "0.6"
colored = "2"
directories = "5"
dotenvy = "0.15"
env_logger = { version = "0.11", default-features = false }
futures = "0.3"
log = "0.4"
ratatui = "0.29"
reqwest = { version = "0.12", default-features = false, features = ["json", "stream", "default-tls"] }
serde = { version = "1", features = ["derive"] }
serde_json = "1"
tokio = { version = "1", features = ["rt-multi-thread", "macros", "sync"] }
uuid = { version = "1", features = ["v4"] }
