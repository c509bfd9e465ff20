[package]
name = "rui"
version = "0.1.0"
edition = "2021"
publish = false

[dependencies]
tao = "=0.5.2"
wgpu = "=0.12.0"
futures = "0.3"
