[package]
name = "http_server"
version = "0.1.0"
edition = "2021"
publish = false

[dependencies]
regex = "1"
flate2 = "1"
clap = { version = "4", features = ["derive"] }
signal-hook = "0.3"
