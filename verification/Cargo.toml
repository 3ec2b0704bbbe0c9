[package]
name = "garage_arena"
version = "0.1.0"
edition = "2021"
publish = false

[dependencies]
renet = "*"
fastrand = "*"
