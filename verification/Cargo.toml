[package]
name = "trait_cast"
version = "0.1.0"
edition = "2021"
publish = false

[dependencies]
downcast-rs = "*"
dyn-clone = "*"
linkme = "*"
rustc-hash = "*"
