[package]
name = "legion_kb_rgb"
version = "0.1.0"
edition = "2021"
publish = false

[dependencies]
serde = { version = "1", features = ["derive"] }
serde_json = "1"
thiserror = "1"
error-stack = "0.4"
strum = { version = "0.26", features = ["derive"] }
chrono = "0.4"
rand = "0.8"
sysinfo = "0.32"
photon-rs = "0.3"
