[package]
name = "to_uni"
version = "0.1.0"
edition = "2021"
publish = false

[dependencies]
yaml-rust = "*"
atomicwrites = "*"
