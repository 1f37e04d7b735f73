[package]
name = "feoblog"
version = "0.1.0"
edition = "2021"
publish = false

[dependencies]
bs58 = "0.5"
ed25519-dalek = "2"
