[package]
name = "rust_game_networking"
version = "0.1.0"
edition = "2021"
publish = false

[dependencies]
byteorder = "1"
log = "0.4"
rand = "0.8"
