[package]
name = "weld"
version = "0.1.0"
edition = "2021"
publish = false

[dependencies]
rand = "0.8"
serde = { version = "1", features = ["derive"] }
serde_derive = "1"
serde_json = "1"
hyper = "0.11"
futures = "0.1"
futures-cpupool = "0.1"
slog = "2"
slog-term = "2"
slog-async = "2"
lazy_static = "1"
time = "0.1"
