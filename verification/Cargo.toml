[package]
name = "sky_monitor"
version = "0.1.0"
edition = "2021"
publish = false

[dependencies]
chrono = { version = "0.4", default-features = false, features = ["std", "clock"] }
serde = { version = "1", features = ["derive"] }
serde_json = "1"
uuid = { version = "1", features = ["v4", "serde"] }
thiserror = "1"
sgp4 = "2"
ruvector-core = { version = "*", default-features = false }
ruvector-graph = { version = "*", default-features = false }
wasm-bindgen = "0.2"
serde-wasm-bindgen = "0.6"
