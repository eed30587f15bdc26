[package]
name = "battlemapper"
version = "0.1.0"
edition = "2021"

[dependencies]
rand = "0.8"
image = { version = "0.24", default-features = false, features = ["png"] }
base64 = "0.13"
clap = { version = "3", features = ["derive"] }
