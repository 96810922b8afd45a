[package]
name = "ksana"
version = "0.1.0"
edition = "2021"
publish = false

[dependencies]
flate2 = "*"
chrono = "*"
clap = { version = "*", features = ["derive"] }
ctrlc = "*"
