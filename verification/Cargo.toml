[package]
name = "studiobridge"
version = "0.1.0"
edition = "2021"
publish = false

[dependencies]
ulid = "1"
zeroize = "1"
serde = { version = "1", features = ["derive"] }
serde_json = "1"
tokio = { version = "1", features = ["rt-multi-thread", "macros", "sync", "time", "net"] }
axum = "0.8"
tower-http = { version = "0.6", features = ["cors", "fs", "trace"] }
tracing = "0.1"
tracing-subscriber = { version = "0.3", features = ["env-filter"] }
clap = { version = "4", features = ["derive"] }
anyhow = "1"
async-trait = "0.1"
reqwest = { version = "0.12", default-features = false, features = ["blocking", "json"] }
thiserror = "2"
