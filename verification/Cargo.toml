[package]
name = "untar"
version = "0.1.0"
edition = "2021"
publish = false

[dependencies]
clap = { version = "*", features = ["derive"] }
flate2 = "*"
tar = "*"
tempfile = "*"
zip = { version = "*", default-features = false, features = ["deflate"] }
