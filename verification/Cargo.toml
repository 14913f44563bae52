[package]
name = "kmeans"
version = "0.1.0"
edition = "2021"
publish = false

[dependencies]
csv = "1"
