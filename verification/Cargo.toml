[package]
name = "wasm_stack_tables"
version = "0.1.0"
edition = "2021"
publish = false

[dependencies]
wasmparser = "*"
byteorder = "1"
indexmap = { version = "2", features = ["serde"] }
serde = { version = "1", features = ["derive"] }
rmp-serde = "1"
serde_json = "1"
anyhow = "1"
camino = "1"
clap = { version = "4", features = ["derive"] }
log = "0.4"
env_logger = "*"

[dev-dependencies]
wasm-encoder = "*"
