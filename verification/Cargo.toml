[package]
name = "pool_sim"
version = "0.1.0"
edition = "2021"

[dependencies]
roots = "*"
