[package]
name = "dead_store"
version = "0.1.0"
edition = "2021"
publish = false

[dependencies]
anyhow = "=1.0.104"
async-trait = "=0.1.92"
clap = { version = "=4.6.7", features = ["derive"] }
redis = { version = "=1.8.0", features = ["tokio-comp", "connection-manager"] }
self_update = { version = "=0.39.0", default-features = false }
tokio = { version = "=1.54.1", features = ["rt", "rt-multi-thread", "time", "macros"] }
tracing = "=0.1.44"
