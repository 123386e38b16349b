[package]
name = "parallel_metal"
version = "0.1.0"
edition = "2021"
publish = false

[dependencies]
metal = "*"
objc = "0.2"
proc-macro2 = "1"
quote = "1"
syn = { version = "2", features = ["full", "extra-traits"] }
