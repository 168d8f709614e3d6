[package]
name = "titlefit"
version = "0.1.0"
edition = "2021"
publish = false

[dependencies]
color-eyre = "*"
eyre = "*"
image = "*"
imageproc = "*"
rand = "*"
rusttype = "0.9"
serde = { version = "*", features = ["derive"] }
slug = "*"
toml = "*"
