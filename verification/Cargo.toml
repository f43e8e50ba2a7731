[package]
name = "log_style"
version = "0.1.0"
edition = "2021"
publish = false

[dependencies]
anyhow = "1"
cargo_toml = "*"
clap = { version = "4", features = ["derive"] }
walkdir = "2"
