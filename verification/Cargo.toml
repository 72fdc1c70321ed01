[package]
name = "peer2peer"
version = "0.1.0"
edition = "2021"
publish = false

[dependencies]
sha3 = "0.10"
fastrand = "2"
postcard = { version = "1", features = ["alloc"] }
serde = { version = "1", features = ["derive"] }
local-ip-address = "0.6"
