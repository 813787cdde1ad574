[package]
name = "patchferret"
version = "0.1.0"
edition = "2021"
publish = false

[dependencies]
miniz_oxide = "0.8"
quick-xml = "0.37"
thiserror = "2"
