[package]
name = "blob"
version = "0.1.0"
edition = "2021"
publish = false

[dependencies]
js-sys = "0.3"
