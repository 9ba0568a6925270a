[package]
name = "stockrs"
version = "0.1.0"
edition = "2021"
publish = false

[dependencies]
anyhow = "1"
async-trait = "=0.1.92"
clap = { version = "=4.6.7", features = ["derive"] }
comfy-table = "=7.2.2"
directories = "=6.0.0"
encoding_rs = "=0.8.44"
flate2 = "=1.1.10"
reqwest = { version = "=0.12.28", default-features = false, features = ["json", "rustls-tls"] }
rhai = { version = "=1.27.0", features = ["sync"] }
rusqlite = { version = "=0.41.1", features = ["bundled"] }
self_update = { version = "=0.44.0", default-features = false, features = ["reqwest", "rustls", "archive-tar", "compression-flate2"] }
serde_json = "=1.0.154"
tokio = { version = "=1.54.1", features = ["macros", "rt-multi-thread", "sync", "time"] }
