[package]
name = "hungersim"
version = "0.1.0"
edition = "2021"
publish = false

[dependencies]
rand = "*"
serde = "*"
serde_json = "*"
tinytemplate = "*"
rusttype = "*"
image = { version = "*", default-features = false, features = ["png", "jpeg"] }
