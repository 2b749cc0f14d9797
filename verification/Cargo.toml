[package]
name = "sparse_set"
version = "0.1.0"
edition = "2021"
publish = false

[dependencies]
bevy_ptr = "0.8"
