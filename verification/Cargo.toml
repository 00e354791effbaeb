[package]
name = "bithoven"
version = "0.1.0"
edition = "2021"
publish = false

[dependencies]
bitcoin = "*"
clap = { version = "*", features = ["derive"] }
logos = "*"
