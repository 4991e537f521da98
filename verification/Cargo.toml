[package]
name = "airl"
version = "0.1.0"
edition = "2021"
publish = false

[dependencies]
z3 = "0.12"
z3-sys = "0.8"
