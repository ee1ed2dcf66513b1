[package]
name = "nbody"
version = "0.1.0"
edition = "2021"
publish = false

[dependencies]
physsol = "0.2"
vecmat = "0.2"
rand = "0.6"
