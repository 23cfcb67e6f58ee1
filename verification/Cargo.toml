[package]
name = "kpasscli"
version = "0.1.0"
edition = "2021"
publish = false

[dependencies]
anyhow = "=1.0.104"
arboard = "=3.6.1"
clap = { version = "=4.6.7", features = ["derive"] }
dirs = "=7.0.0"
keepass = "=0.15.0"
rpassword = "=7.5.4"
serde = { version = "=1.0.229", features = ["derive"] }
serde_yaml = "=0.9.34"
totp-rs = "=5.7.2"
which = "=8.0.6"
