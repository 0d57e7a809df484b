[package]
name = "board_ai"
version = "0.1.0"
edition = "2021"
publish = false

[dependencies]
itertools = "*"
napi = "2"
napi-derive = "2"
