[package]
name = "macon"
version = "0.1.0"
edition = "2021"
publish = false

[dependencies]
base64 = "*"
clap = { version = "*", features = ["derive"] }
flate2 = "*"
rayon = "*"
sha256 = "*"
shunting = "*"
zip = { version = "*", default-features = false, features = ["deflate"] }
