[package]
name = "component"
version = "0.1.0"
edition = "2021"
publish = false

[dependencies]
linkme = "0.3"
parking_lot = "0.12"
rustc-hash = "*"
zed-collections = "*"
