[package]
name = "monkey"
version = "0.1.0"
edition = "2021"
publish = false

[dependencies]
users = "0.11"
wasm-bindgen = "0.2"
