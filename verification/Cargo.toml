[package]
name = "praborrow_defense"
version = "0.1.0"
edition = "2021"
publish = false

[dependencies]
sha2 = "*"
syn = { version = "*", features = ["full"] }
quote = "*"
proc-macro2 = "*"
