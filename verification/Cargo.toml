[package]
name = "local_wallet"
version = "0.1.0"
edition = "2021"
publish = false

[dependencies]
blsttc = "8.0.1"
rand = "0.8.5"
xor_name = "5.0.0"
serde = { version = "1", features = ["derive"] }
bincode = "1.3.3"

[dev-dependencies]
hex = "0.4.3"
