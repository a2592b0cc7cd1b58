[package]
name = "socd"
version = "0.1.0"
edition = "2021"
publish = false

[dependencies]
sha2 = "0.10"
hmac = "0.12"
ed25519-dalek = "2"
spinning_top = "0.2"
