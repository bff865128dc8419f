[package]
name = "vite_plus"
version = "0.1.0"
edition = "2021"
publish = false

[dependencies]
semver = "=1.0.28"
node-semver = "=2.2.0"
rustls = { version = "=0.23.46", default-features = false, features = ["ring", "std"] }
serde = { version = "=1.0.229", features = ["derive"] }
serde_json = "=1.0.154"
petgraph = "0.8"
sha1 = "0.10"
sha2 = "0.10"
hex = "0.4"
base64-simd = "0.8"
pathdiff = "0.2"
clap = { version = "4", features = ["derive"] }
flate2 = "1"
tar = "0.4"

[dev-dependencies]
