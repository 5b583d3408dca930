[package]
name = "dsz"
version = "0.1.0"
edition = "2021"
publish = false

[dependencies]
anyhow = "*"
chrono = "*"
clap = { version = "*", features = ["derive"] }
clap_complete = "*"
dunce = "*"
num-format = { version = "*", features = ["with-system-locale"] }
once_cell = "*"
spinners = "*"
walkdir = "*"
