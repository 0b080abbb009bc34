[package]
name = "tunet"
version = "0.1.0"
edition = "2021"
publish = false

[dependencies]
reqwest = { version = "=0.13.5", default-features = false, features = ["blocking", "form"] }
serde_json = "=1.0.151"
regex = "=1.13.1"
rust-crypto = "=0.2.36"
chrono = "=0.4.45"
dirs = "=7.0.0"
rpassword = "=7.5.4"
