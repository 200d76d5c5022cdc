[package]
name = "bettercursor"
version = "0.3.5"
edition = "2021"
publish = false

[dependencies]
anyhow = "1"
async-trait = "0.1"
chrono = "0.4"
env_logger = "0.11"
hex = "0.4"
home = "0.5"
log = "0.4"
md5 = "0.7"
mdns-sd = "*"
notify = "*"
rusqlite = { version = "*", features = ["bundled"] }
serde = { version = "1", features = ["derive"] }
serde_json = "1"
sha2 = "0.10"
tempfile = "3"
tokio = { version = "1", features = ["rt-multi-thread"] }
