[package]
name = "wm"
version = "0.1.0"
edition = "2021"
publish = false

[dependencies]
async-task = "4"
futures-lite = "2"
instant = "0.1"
parking_lot = "0.12"
scoped-tls-hkt = "0.1"
winit = "0.29"
