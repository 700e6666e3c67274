[package]
name = "calcul"
version = "0.1.0"
edition = "2021"
publish = false

[dependencies]
either = "1"
wasm-bindgen = "0.2"
wee_alloc = "0.4"
