[package]
name = "holodex"
version = "0.1.0"
edition = "2021"
publish = false

[dependencies]
bitvec = "*"
serde_json = "*"
xxhash-rust = { version = "*", features = ["xxh64"] }
