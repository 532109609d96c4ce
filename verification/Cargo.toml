[package]
name = "icy_sixel"
version = "0.1.0"
edition = "2021"
publish = false

[dependencies]
quantette = "*"
thiserror = "*"
clap = { version = "*", features = ["derive"] }
image = { version = "*", default-features = false, features = ["png"] }
