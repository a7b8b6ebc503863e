[package]
name = "quantum_sse"
version = "0.2.0"
edition = "2021"
publish = false

[dependencies]
qslib-quantum = { version = "=0.2.1", features = ["sse", "variational"] }
rand = "=0.9.5"
rand_chacha = "=0.10.0"
rand_core = "=0.10.1"
rayon = "=1.12.0"
serde = { version = "=1.0.229", features = ["derive"] }
serde_json = "=1.0.154"
serde_yaml_ng = "=0.10.0"
clap = { version = "=4.6.7", features = ["derive"] }
wasm-bindgen = "0.2"
