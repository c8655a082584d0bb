[package]
name = "rosomaxa"
version = "0.1.0"
edition = "2021"
publish = false

[dependencies]
hashbrown = "*"
lazy_static = "*"
wasm-bindgen = "*"
web-sys = { version = "*", features = ["console"] }
