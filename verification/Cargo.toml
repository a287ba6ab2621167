[package]
name = "two_way_peg"
version = "0.1.0"
edition = "2021"
publish = false

[dependencies]
bitcoin = "0.32"
fallible-iterator = "0.3"
heed = { version = "*", features = ["serde-bincode"] }
serde = { version = "1", features = ["derive"] }
sneed = "*"
tracing = "0.1"
