[package]
name = "laspa"
version = "0.1.0"
edition = "2021"
publish = false

[dependencies]
rustc_apfloat = "*"
inkwell = "*"
clap = { version = "*", features = ["derive"] }
env_logger = "*"
indicatif = "*"
log = "*"
