[package]
name = "roux"
version = "0.1.0"
edition = "2021"
publish = false

[dependencies]
lazy_static = "1"
miniserde = "0.1"
wasm-bindgen = "0.2"
