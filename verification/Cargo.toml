[package]
name = "portfolio_agent"
version = "0.1.0"
edition = "2021"
publish = false

[dependencies]
anyhow = "1"
base64 = "=0.22.1"
dotenv = "0.15"
prettytable-rs = "0.10"
reqwest = { version = "0.12", default-features = false, features = ["rustls-tls"] }
rig-core = { version = "=0.44.0", features = ["reqwest"] }
serde = { version = "1", features = ["derive"] }
serde_json = "1"
thiserror = "1"
tokio = { version = "1", features = ["rt-multi-thread", "macros"] }
tracing-subscriber = "0.3"
