[package]
name = "wireguard_core"
version = "0.1.0"
edition = "2021"
publish = false

[dependencies]
snow = { version = "=0.10.0", features = ["risky-raw-split"] }
chacha20poly1305 = "=0.11.0"
blake2 = "=0.11.0"
x25519-dalek = { version = "=3.0.0", features = ["static_secrets"] }
rand = "=0.10.3"
