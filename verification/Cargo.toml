[package]
name = "gotospec"
version = "0.1.0"
edition = "2021"
publish = false

[dependencies]
itertools = "*"
regex = "*"
serde = { version = "*", features = ["derive"] }
serde_json = "*"
mlua = { version = "*", features = ["lua54", "vendored", "serialize"] }
