[package]
name = "inertia-relayer"
version = "0.1.0"
edition = "2021"
publish = false

[dependencies]
clap = { version = "4", features = ["derive", "env"] }
crossbeam-channel = "0.5"
env_logger = "0.11"
jwt = { version = "0.16", features = ["openssl"] }
log = "0.4"
openssl = "0.10"
prost = "0.13"
prost-types = "0.13"
quinn = "0.11"
rayon = "1"
rustls = { version = "0.23", default-features = false, features = ["ring", "std", "tls12"] }
serde_yaml = "0.9"
simplelog = "0.12"
solana-sdk = "3.0"
tokio = { version = "1", features = ["full"] }
tokio-stream = { version = "0.1", features = ["sync"] }
tokio-util = "0.7"
tonic = "0.12"
