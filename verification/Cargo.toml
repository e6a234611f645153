[package]
name = "mouseless"
version = "0.1.0"
edition = "2021"
publish = false

[dependencies]
mouse-rs = "=0.4.2"
core-graphics = "=0.23.2"
core-foundation = "=0.9.4"
