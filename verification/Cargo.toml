[package]
name = "porker"
version = "0.1.0"
edition = "2021"
publish = false

[dependencies]
anyhow = "1"
num_cpus = "1"
rand = "0.8"
rustc-hash = "2"
serde = { version = "1", features = ["derive"] }
