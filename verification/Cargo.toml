[package]
name = "length_extension"
version = "0.1.0"
edition = "2021"
publish = false

[dependencies]
sha2 = { version = "=0.10.9", features = ["compress"] }
hex = "=0.4.3"
wasm-bindgen = "=0.2.92"

[dev-dependencies]
hmac = "=0.12.1"
