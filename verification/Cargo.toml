[package]
name = "rbf"
version = "0.1.0"
edition = "2021"
publish = false

[dependencies]
chrono = { version = "0.4", default-features = false, features = ["std"] }
getopts = "0.2"
pbr = "1"
regex = "1"
regex-syntax = "0.8"
xml-rs = "0.8"
