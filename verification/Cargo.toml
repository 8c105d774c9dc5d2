[package]
name = "rascii_art"
version = "0.1.0"
edition = "2021"
publish = false

[dependencies]
rand = "=0.8.8"
image = { version = "=0.25.10", default-features = false, features = ["gif"] }
