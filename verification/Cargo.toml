[package]
name = "yunyin"
version = "0.61.0"
edition = "2021"
publish = false

[dependencies]
libquickjs-sys = "*"
pocketjs-core = "*"
vitasdk-sys = "*"
