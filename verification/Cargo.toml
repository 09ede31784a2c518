[package]
name = "marie_core"
version = "0.1.0"
edition = "2021"
publish = false

[dependencies]
anyhow = "1"
async-stream = "0.3"
async-trait = "0.1"
chrono = { version = "=0.4.45", default-features = false, features = ["clock", "serde"] }
futures = "0.3"
libp2p = { version = "=0.56.0", default-features = false, features = ["gossipsub", "identify", "macros", "rendezvous", "request-response"] }
loro = "=1.17.1"
openraft = { version = "=0.9.25", features = ["serde", "storage-v2"] }
parking_lot = "0.12"
redb = "=4.4.0"
serde = { version = "1", features = ["derive"] }
serde_json = "=1.0.154"
sha2 = "=0.10.9"
sqlx = { version = "*", default-features = false, features = ["postgres", "runtime-tokio"] }
thiserror = "2"
tokio = { version = "1", features = ["macros", "rt-multi-thread", "sync", "time"] }
tokio-stream = { version = "0.1", features = ["sync"] }
tracing = "0.1"
typed-builder = "*"
yrs = "=0.28.0"
