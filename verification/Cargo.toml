[package]
name = "cargo_pretty"
version = "0.1.0"
edition = "2021"
publish = false

[dependencies]
cargo_metadata = "=0.23.1"
colorgrad = "=0.8.0"
crossterm = "=0.29.0"
eyre = "=0.6.14"
nobubbles = { version = "=0.1.1", features = ["gradient"] }
serde_json = "=1.0.154"
