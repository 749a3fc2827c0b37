[package]
name = "simpledns"
version = "0.1.0"
edition = "2021"
publish = false

[dependencies]
rand = "0.8"
shellexpand = "3"
yaml-rust = "0.4"
