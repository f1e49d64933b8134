[package]
name = "qudoku"
version = "0.1.0"
edition = "2021"
publish = false

[dependencies]
secp = { version = "=0.7.0", default-features = false, features = ["k256", "rand"] }
sha2 = "=0.11.0"
rand = "0.9"
