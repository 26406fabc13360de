[package]
name = "rensen"
version = "0.1.0"
edition = "2021"
publish = false

[dependencies]
chrono = "0.4"
console = "*"
cron = "*"
env_logger = "*"
flate2 = "1"
fxhash = "0.2"
log = "0.4"
serde = { version = "1", features = ["derive"] }
serde_json = "1"
serde_yaml = "0.9"
sha3 = "0.10"
ssh2 = "0.9"
tar = "0.4"
termion = "*"
tokio = { version = "1", features = ["rt-multi-thread", "macros", "time", "sync"] }
