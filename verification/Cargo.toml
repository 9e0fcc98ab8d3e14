[package]
name = "streamfly"
version = "0.1.0"
edition = "2021"
publish = false

[dependencies]
anyhow = "=1.0.104"
async-channel = "=2.5.0"
async-trait = "=0.1.92"
bytes = "=1.12.1"
futures = "=0.3.34"
log = "=0.4.35"
nanoid = "=0.5.0"
rmp-serde = "=1.3.1"
s2n-quic = { version = "=1.91.0", features = ["provider-event-tracing", "unstable-provider-datagram"] }
serde = { version = "=1.0.229", features = ["derive"] }
tokio = { version = "=1.54.1", features = ["full"] }
tracing = "=0.1.44"
