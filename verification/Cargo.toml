[package]
name = "nft_registry"
version = "0.1.0"
edition = "2021"
publish = false

[dependencies]
hex = "=0.4.3"
base64 = "=0.13.1"
casper-types = "=1.5.0"
casper-contract = { version = "=1.4.4", default-features = false, features = ["std"] }
