[package]
name = "drasi_server"
version = "0.1.0"
edition = "2021"
publish = false

[dependencies]
anyhow = "=1.0.104"
chrono = "=0.4.45"
clap = { version = "=4.6.7", features = ["derive"] }
drasi-host-sdk = { version = "*", default-features = false }
drasi-lib = "=0.9.3"
drasi-plugin-sdk = "=0.11.3"
handlebars = "=6.4.4"
indexmap = "=2.14.2"
inquire = "=0.9.4"
log = "=0.4.35"
serde = { version = "=1.0.229", features = ["derive"] }
serde_json = "=1.0.154"
serde_yaml = "=0.9.34"
thiserror = "=2.0.21"
tokio = { version = "1", features = ["rt-multi-thread", "macros", "sync"] }
uuid = { version = "=1.29.0", features = ["v4"] }
