[package]
name = "pathtracer"
version = "0.1.0"
edition = "2021"
publish = false

[dependencies]
rand = "=0.8.8"
toml = "0.8"
image = "0.25"
threadpool = "1"
