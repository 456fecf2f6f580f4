[package]
name = "ext_bridge"
version = "0.1.0"
edition = "2021"
publish = false

[dev-dependencies]
parity-scale-codec = "3"
