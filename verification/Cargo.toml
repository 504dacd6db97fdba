[package]
name = "validator_updater"
version = "0.1.0"
edition = "2021"
publish = false

[dependencies]
serde = { version = "1", features = ["derive"] }
serde_json = "=1.0.151"
hex = "=0.4.3"
sha2 = "=0.10.9"
rand = "=0.8.8"
x25519-dalek = { version = "=2.0.1", features = ["static_secrets"] }
aes-gcm = "=0.10.3"
reqwest = { version = "=0.12.28", default-features = false, features = ["json", "rustls-tls"] }
tokio = { version = "1", features = ["rt-multi-thread", "macros", "time"] }
clap = { version = "4", features = ["derive"] }
anyhow = "1"
tracing = "0.1"
tracing-subscriber = { version = "0.3", features = ["env-filter"] }
