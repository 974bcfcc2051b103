[package]
name = "qft"
version = "0.1.0"
edition = "2021"
publish = false

[dependencies]
anyhow = "=1.0.104"
bytes = "=1.12.1"
once_cell = "=1.21.4"
quinn = "=0.10.2"
raptorq = "=2.0.1"
rcgen = "=0.11.3"
rustls = "=0.21.12"
serde = { version = "=1.0.229", features = ["derive"] }
tokio = { version = "=1.54.1", features = ["full"] }
uuid = { version = "=1.29.0", features = ["v4"] }
