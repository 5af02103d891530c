[package]
name = "rustybox"
version = "0.1.0"
edition = "2021"
publish = false

[dependencies]
chrono = "*"
