[package]
name = "chacha20_poly1305"
version = "0.1.0"
edition = "2021"
publish = false

[dev-dependencies]
chacha20poly1305 = "0.10"
