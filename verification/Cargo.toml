[package]
name = "cek"
version = "0.1.0"
edition = "2021"
publish = false

[dependencies]
rand = "0.8"
dirs = "5"
clap = { version = "4", features = ["derive"] }
crossterm = "0.27"
rpassword = "7"
