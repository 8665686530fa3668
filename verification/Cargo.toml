[package]
name = "bao_agent"
version = "0.1.0"
edition = "2021"
publish = false

[dependencies]
rustneat = "*"
