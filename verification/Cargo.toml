[package]
name = "iris"
version = "0.1.0"
edition = "2021"
publish = false

[dependencies]
clap = { version = "=4.6.7", features = ["derive"] }
log = "=0.4.34"
simple_logger = "=5.2.0"
