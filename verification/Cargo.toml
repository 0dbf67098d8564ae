[package]
name = "aocbot"
version = "0.1.0"
edition = "2021"
publish = false

[dependencies]
anyhow = "=1.0.104"
chrono = { version = "=0.4.45", features = ["serde"] }
config = { version = "0.15", default-features = false, features = ["toml"] }
matrix-sdk = { version = "0.9", default-features = false, features = ["anyhow", "e2e-encryption", "markdown", "rustls-tls", "sqlite"] }
mime_guess = "=2.0.5"
regex = "=1.13.1"
reqwest = { version = "=0.12.28", default-features = false, features = ["json", "rustls-tls"] }
rmp-serde = "=1.3.1"
serde = { version = "=1.0.229", features = ["derive"] }
tokio = { version = "=1.54.1", features = ["macros", "rt-multi-thread", "sync", "time"] }
tracing = "=0.1.44"
tracing-subscriber = "=0.3.23"
