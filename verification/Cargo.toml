[package]
name = "mrklt"
version = "0.1.0"
edition = "2021"
publish = false

[dependencies]
blake2 = "0.9"
hex = "0.4"
serde = { version = "1", features = ["derive"] }
structopt = "0.3"
wasm-bindgen = { version = "0.2", features = ["serde-serialize"] }

[dev-dependencies]
rand = "0.8"
