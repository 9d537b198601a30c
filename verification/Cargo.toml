[package]
name = "msgpacker"
version = "0.1.0"
edition = "2021"
publish = false

[dependencies]
serde = { version = "1", default-features = false, features = ["std"] }
syn = { version = "2", features = ["full"] }
quote = "1"
proc-macro2 = "1"
