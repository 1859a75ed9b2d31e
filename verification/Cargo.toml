[package]
name = "stronghold_core"
version = "0.1.0"
edition = "2021"
publish = false

[dependencies]
blake2 = "*"
chacha20poly1305 = "*"
rand = "*"
