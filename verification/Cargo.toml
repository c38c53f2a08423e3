[package]
name = "atum"
version = "0.1.0"
edition = "2021"
publish = false

[dependencies]
dashmap = "*"
ecow = "*"
nohash-hasher = "*"
papaya = "*"
rustc-hash = "*"
