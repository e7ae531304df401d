[package]
name = "zeroboot"
version = "0.1.0"
edition = "2021"
publish = false

[dependencies]
anyhow = "1"
axum = "*"
kvm-bindings = "*"
libc = "0.2"
serde_json = "1"
tokio = { version = "1", features = ["rt-multi-thread", "net", "signal"] }
