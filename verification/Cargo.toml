[package]
name = "fast_obj"
version = "0.1.0"
edition = "2021"
publish = false

[dependencies]
enum-display-derive = "0.1"
