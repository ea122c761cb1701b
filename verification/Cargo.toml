[package]
name = "typeid"
version = "0.1.0"
edition = "2021"
publish = false

[dependencies]
getrandom = "*"

[dev-dependencies]
type-safe-id = "*"
