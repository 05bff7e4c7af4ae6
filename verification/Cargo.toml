[package]
name = "tools"
version = "0.1.0"
edition = "2021"
publish = false

[dependencies]
itertools = "0.12"
rand = "0.8"
rand_chacha = "0.3"
svg = "0.13"
