[package]
name = "mem_aead_mrs"
version = "0.1.0"
edition = "2021"
publish = false

[dependencies]
subtle = "*"

[dev-dependencies]
rand = "*"
