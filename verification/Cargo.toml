[package]
name = "pixeltree"
version = "0.1.0"
edition = "2021"
publish = false

[dependencies]
fastrand = "2"
libc = "0.2"
