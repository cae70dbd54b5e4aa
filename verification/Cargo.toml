[package]
name = "coop_ofd"
version = "0.1.0"
edition = "2021"
publish = false

[dependencies]
chrono = { version = "=0.4.45", default-features = false, features = ["alloc", "std", "clock", "serde"] }
tokio = { version = "=1.54.1", features = ["rt-multi-thread", "macros", "fs", "sync", "time"] }
axum = "=0.6.20"
axum-extra = { version = "=0.7.7", features = ["cookie"] }
reqwest = { version = "=0.11.27", default-features = false, features = ["json", "cookies", "multipart"] }
serde = { version = "=1.0.229", features = ["derive"] }
serde_json = "=1.0.154"
liquid = "=0.24.0"
liquid-core = { version = "0.24", features = ["derive"] }
dashmap = "=5.5.3"
uuid = { version = "=1.29.0", features = ["v4"] }
env_logger = "=0.10.2"
log = "=0.4.35"
http-body = "=0.4.6"
indexmap = { version = "=2.14.2", features = ["serde"] }
async-trait = "=0.1.92"
thiserror = "=1.0.69"
