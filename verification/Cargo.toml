[package]
name = "taskfleet"
version = "0.1.0"
edition = "2021"
publish = false

[dependencies]
aes-gcm = "0.10"
async-trait = "0.1"
bincode = "1"
bytes = "1"
chrono = "0.4"
clap = { version = "4", features = ["derive"] }
cron = "0.12"
dirs = "5"
env_logger = "0.10"
flate2 = "1"
http-types = "2"
log = "0.4"
rand = "0.8"
reqwest = { version = "0.11", default-features = false }
serde = { version = "1", features = ["derive"] }
serde_json = "1"
sha2 = "0.10"
shellexpand = "3"
tide = { version = "0.16", default-features = false, features = ["h1-server"] }
tokio = { version = "1", features = ["full"] }
uuid = { version = "1", features = ["v4", "serde"] }
