[package]
name = "chip8"
version = "0.1.0"
edition = "2021"
publish = false

[dependencies]
rand = "0.8"
wasm-bindgen = "0.2"
console_error_panic_hook = "0.1"
ggez = { version = "0.9", default-features = false }
