[package]
name = "jit_host"
version = "0.1.0"
edition = "2021"
publish = false

[dependencies]
wasm-encoder = "=0.250.0"
wasmtime = { version = "=44.0.3", default-features = false, features = ["cranelift", "runtime", "std"] }
wasmtime-wasi = { version = "=44.0.3", default-features = false, features = ["p1"] }
