[package]
name = "jma_radar_bridge"
version = "0.1.0"
edition = "2021"
publish = false

[dependencies]
tar = "=0.4.46"
time = "=0.3.55"
serde = { version = "=1.0.229", features = ["derive"] }
serde_json = "=1.0.154"
thiserror = "=1.0.69"
clap = { version = "=4.6.7", features = ["derive"] }
image = { version = "=0.25.10", default-features = false, features = ["png"] }
tiny_http = "=0.12.0"
ureq = "=2.12.1"
