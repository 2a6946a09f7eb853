[package]
name = "canweeb"
version = "0.1.0"
edition = "2021"
publish = false

[dependencies]
anyhow = "1"
axum = "0.7"
base64 = "0.22"
bincode = "1.3"
clap = { version = "4", features = ["derive"] }
crossterm = "0.27"
dashmap = "5"
gpio-cdev = "0.6"
i2cdev = "0.6"
num-traits = "0.2"
once_cell = "1"
rand = "0.8"
serde = { version = "1", features = ["derive"] }
serde_bytes = "0.11"
serde_json = "1"
serialport = { version = "4", default-features = false }
spidev = "0.6"
thiserror = "1"
tokio = { version = "1", features = ["full"] }
toml = "0.8"
tracing = "0.1"
tracing-subscriber = { version = "0.3", features = ["env-filter"] }
uuid = { version = "1", features = ["v4", "serde"] }
