[package]
name = "label_propagation"
version = "0.1.0"
edition = "2021"
publish = false

[dependencies]
ndarray = "0.16"
ndarray-stats = "0.6"
