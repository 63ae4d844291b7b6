[package]
name = "cargo_run_wasm"
version = "0.1.0"
edition = "2021"
publish = false

[dependencies]
pico-args = "0.5"
devserver_lib = { version = "0.4", default-features = false }
wasm-bindgen-cli-support = "0.2"
