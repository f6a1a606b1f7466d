[package]
name = "galaxy_roamer"
version = "0.1.0"
edition = "2021"
publish = false

[dependencies]
rand = "0.8"
rand_chacha = "0.3"
noise = "0.9"
