[package]
name = "worm_rs"
version = "0.1.0"
edition = "2021"
publish = false

[dependencies]
ndarray = { version = "0.15", default-features = false, features = ["std"] }
rand = "0.8"
