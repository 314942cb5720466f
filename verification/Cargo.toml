[package]
name = "rs_cinic_10_index"
version = "0.1.0"
edition = "2021"
publish = false

[dependencies]
anyhow = "1"
burn = { version = "0.18", default-features = false, features = ["ndarray"] }
csv = "1"
image = { version = "0.25", default-features = false, features = ["png"] }
serde = { version = "1", features = ["derive"] }
strum = { version = "0.27", features = ["derive"] }
strum_macros = "0.27"
