[package]
name = "strategy"
version = "0.1.0"
edition = "2021"
publish = false

[dependencies]
serde = { version = "=1.0.229", features = ["derive"] }
serde_json = "=1.0.154"
thiserror = "=1.0.69"
tokio = { version = "1", features = ["sync", "time", "rt", "rt-multi-thread", "macros", "net"] }
futures = "0.3"
tokio-tungstenite = "*"
reqwest = { version = "*", default-features = false, features = ["json"] }
ratatui = "*"
async-trait = "*"
