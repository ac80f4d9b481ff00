[package]
name = "blur"
version = "0.1.0"
edition = "2021"

[dependencies]
grid = "*"
image = { version = "*", default-features = false, features = ["jpeg", "png"] }
