[package]
name = "disquiet"
version = "0.1.0"
edition = "2021"
publish = false

[dependencies]
crossbeam-deque = "*"
crossbeam-utils = "*"
png = "*"
