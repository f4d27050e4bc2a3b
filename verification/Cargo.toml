[package]
name = "tinydancer"
version = "0.1.0"
edition = "2021"
publish = false

[dependencies]
solana-sdk = "=2.3.1"
rand = "=0.8.8"
crossbeam = "=0.8.5"
tungstenite = "=0.24.0"
url = "=2.5.8"
serde = { version = "=1.0.229", features = ["derive"] }
serde_json = "=1.0.151"
rayon = "=1.12.0"
