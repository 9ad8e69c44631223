[package]
name = "pliego_core"
version = "0.1.0"
edition = "2021"
publish = false

[dependencies]
stylo = { version = "*", features = ["servo"] }
app_units = "=0.7.8"
crossbeam-channel = "0.5"
euclid = "0.22"
log = "0.4"
parking_lot = "0.12"
rustc-hash = "2"
serde = { version = "1", features = ["derive"] }
