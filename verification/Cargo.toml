[package]
name = "anymic"
version = "0.1.0"
edition = "2021"
publish = false

[dependencies]
hostname = "0.4"
audiopus = "0.3.0-rc.0"
mdns-sd = "*"
tokio = { version = "1", features = ["full"] }
parking_lot = "0.12"
anyhow = "1"
thiserror = "1"
tracing = "0.1"
tracing-subscriber = { version = "0.3", features = ["env-filter", "fmt"] }
serde = { version = "1", features = ["derive"] }
cpal = "0.15"
coreaudio-rs = "0.11"
