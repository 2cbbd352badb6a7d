[package]
name = "gmaildb"
version = "0.1.0"
edition = "2021"
publish = false

[dependencies]
crossbeam-channel = "0.5"
serde_json = "1"
eyre = "0.6"
