[package]
name = "mygit"
version = "0.1.0"
edition = "2021"
publish = false

[dependencies]
anyhow = "1"
chrono = { version = "0.4", default-features = false, features = ["clock"] }
hex = "0.4"
miniz_oxide = "0.8"
rand = "0.8"
sha1 = "0.10"
