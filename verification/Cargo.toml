[package]
name = "dll_pack"
version = "0.1.0"
edition = "2021"
publish = false

[dependencies]
anyhow = "=1.0.104"
libloading = "=0.8.9"
log = "=0.4.35"
url = "=2.5.8"
wasmtime = { version = "=29.0.1", default-features = false, features = ["cranelift", "gc", "gc-drc", "gc-null", "runtime", "signals-based-traps", "std", "threads"] }
wasmtime-wasi = { version = "=29.0.1", default-features = false, features = ["preview1"] }
