[package]
name = "pltx_reader"
version = "0.1.0"
edition = "2021"
publish = false

[dependencies]
flate2 = "1"
lz4 = "1"
zstd = "0.13"
axum = { version = "0.8", features = ["ws"] }
tokio = { version = "1", features = ["macros", "rt-multi-thread", "net", "time", "fs", "sync"] }
serde = { version = "1", features = ["derive"] }
serde_json = "1"
reqwest = { version = "0.12", default-features = false, features = ["json"] }
thiserror = "1"
tracing = "0.1"
tracing-subscriber = "0.3"
