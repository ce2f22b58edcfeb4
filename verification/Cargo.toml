[package]
name = "http_server"
version = "0.1.0"
edition = "2021"
publish = false

[dependencies]
askama = { version = "0.14", default-features = false, features = ["derive", "std"] }
clap = { version = "=4.6.7", features = ["derive"] }
