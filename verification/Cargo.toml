[package]
name = "rocket_rate_limit"
version = "0.1.0"
edition = "2021"
publish = false

[dependencies]
governor = "*"
rocket = "*"
