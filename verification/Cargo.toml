[package]
name = "p256_cortex_m4"
version = "0.1.0"
edition = "2021"
publish = false

[dependencies]
elliptic-curve = { version = "0.13", default-features = false }
zeroize = "1"
embassy-crypto-driver = "*"
