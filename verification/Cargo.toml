[package]
name = "merkle_session"
version = "0.1.0"
edition = "2021"
publish = false

[dependencies]
anyhow = "1"
napi = "2"
napi-derive = "2"
