[package]
name = "math_search"
version = "0.1.0"
edition = "2021"
publish = false

[dependencies]
abi_stable = "0.11.3"
clipboard = "0.5.0"
log = "0.4"
mexprp = { version = "0.3.1", default-features = false }
