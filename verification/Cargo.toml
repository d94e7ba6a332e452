[package]
name = "bft"
version = "0.1.0"
edition = "2021"
publish = false

[dependencies]
grid = "*"
rand = "*"
crossterm = "*"
clap = { version = "*", features = ["derive"] }
log = "*"
ftail = "*"
chrono = "*"
