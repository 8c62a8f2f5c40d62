[package]
name = "metalgear"
version = "0.1.0"
edition = "2021"
publish = false

[dependencies]
metal = "*"
cocoa-foundation = "*"
lazy_static = "1"
