[package]
name = "godrick"
version = "0.1.0"
edition = "2021"
publish = false

[dependencies]
colored = "*"
parse-frequency = "*"
libloading = "0.8"
clap = { version = "4", features = ["derive"] }
parse-size = "1"
