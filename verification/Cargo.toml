[package]
name = "framesheet"
version = "0.1.0"
edition = "2021"
publish = false

[dependencies]
clap = "=3.2.25"
image = "=0.24.9"
indicatif = { version = "0.17", features = ["rayon"] }
rayon = "=1.12.0"
