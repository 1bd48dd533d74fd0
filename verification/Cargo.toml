[package]
name = "quic_vid"
version = "0.1.0"
edition = "2021"
publish = false

[dependencies]
anyhow = "1"
clap = { version = "4", features = ["derive"] }
if-addrs = "0.13"
image = { version = "0.25", default-features = false, features = ["jpeg"] }
minifb = "0.27"
quinn = "0.11"
rcgen = "0.13"
rustls = { version = "0.23", default-features = false, features = ["ring", "std", "logging", "tls12"] }
tokio = { version = "1", features = ["full"] }
uuid = { version = "1", features = ["v4"] }
