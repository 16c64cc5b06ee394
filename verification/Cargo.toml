[package]
name = "mockwork"
version = "0.1.0"
edition = "2021"
publish = false

[dependencies]
instant = "0.1"
rand = "0.8"
serde = { version = "1", features = ["derive"] }
serde_json = "1"
futures = "0.3"
async-std = "1"
futures-timer = "3"
log = "0.4"
lazy_static = "1"
once_cell = "1"
