[package]
name = "cargo_qp"
version = "0.1.0"
edition = "2021"
publish = false

[dependencies]
anyhow = "*"
arboard = "*"
cargo_metadata = "*"
cargo_toml = "*"
clap = { version = "*", features = ["derive"] }
