[package]
name = "steg"
version = "1.0.0"
edition = "2021"
publish = false

[dependencies]
base64 = "0.21"
chacha20 = "0.9"
clap = { version = "4", features = ["derive"] }
image = { version = "0.24", default-features = false, features = ["jpeg", "png"] }
jpeg-encoder = "*"
rand = "0.8"
