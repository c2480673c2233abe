[package]
name = "bn_limbs"
version = "0.1.0"
edition = "2021"
publish = false

[dependencies]
num-bigint = "*"
hex = "*"
wasm-bindgen = "*"
js-sys = "*"
console_error_panic_hook = "*"

[dev-dependencies]
noir-bignum-paramgen = "*"
