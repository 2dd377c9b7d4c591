[package]
name = "cloudtg"
version = "0.1.0"
edition = "2021"
publish = false

[dependencies]
sha2 = "0.10"
hex = "0.4"
ulid = "1"
anyhow = "1"
chrono = "0.4"
tokio = { version = "1", features = ["rt", "rt-multi-thread", "time", "sync"] }
async-trait = "0.1"
serde = { version = "1", features = ["derive"] }
serde_json = "1"
tracing = "0.1"
thiserror = "1"
sqlx-core = "0.8"
sqlx-sqlite = "0.8"

[dev-dependencies]
tempfile = "3"
