[package]
name = "cuda_memory"
version = "0.1.0"
edition = "2021"
publish = false

[dependencies]
pliron = "*"
anyhow = "*"
