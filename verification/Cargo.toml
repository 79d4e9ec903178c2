[package]
name = "peerland"
version = "0.1.0"
edition = "2021"
publish = false

[dependencies]
uuid = { version = "=1.29.0", features = ["v4", "serde"] }
rand = "=0.8.8"
prost = "=0.13.5"
prost-types = "=0.13.5"
tokio = { version = "=1.54.1", features = ["full"] }
tokio-util = "=0.7.20"
serde = { version = "=1.0.229", features = ["derive"] }
rmp-serde = "=1.3.1"
thiserror = "=1.0.69"
tracing = "=0.1.44"
futures = "=0.3.34"
