[package]
name = "sonar"
version = "0.1.0"
edition = "2021"
publish = false

[dependencies]
arboard = { version = "3", default-features = false }
chrono = "0.4"
dhcproto = "0.12"
pnet = "0.35"
rand = "0.9"
slint = { version = "1", default-features = false, features = ["std", "compat-1-2"] }
