[package]
name = "vidcast"
version = "0.1.0"
edition = "2021"
publish = false

[dependencies]
arc-swap = "*"
clap = { version = "*", features = ["derive"] }
