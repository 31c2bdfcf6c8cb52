[package]
name = "powminer"
version = "0.1.0"
edition = "2021"
publish = false

[dependencies]
sha2 = "*"
hex = "*"
secp256k1 = { version = "*", features = ["rand"] }
clap = { version = "*", features = ["derive"] }
