[package]
name = "polez-vst"
version = "0.1.0"
edition = "2021"
publish = false

[dependencies]
crossbeam-queue = "0.3"
ndarray = "0.16"
truce = "0.61"
truce-gui = "0.61"
