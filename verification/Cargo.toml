[package]
name = "fracints"
version = "0.1.0"
edition = "2021"
publish = false

[dependencies]
awint = "*"
rand_core = "*"
