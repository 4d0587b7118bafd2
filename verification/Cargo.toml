[package]
name = "seed_split"
version = "0.1.0"
edition = "2021"
publish = false

[dependencies]
bip39 = { version = "*", features = ["rand"] }
clap = { version = "*", features = ["derive"] }
