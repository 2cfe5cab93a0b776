[package]
name = "klavier_core"
version = "0.1.0"
edition = "2021"
publish = false

[dependencies]
serde = { version = "1", features = ["derive"] }
serde_json = "1"
gcd = "*"
klavier-helper = "*"
intervallum = "*"
gcollections = "*"
fasteval = "*"
regex = "1"
once_cell = "1"
enumset = { version = "*", features = ["serde"] }
derive_builder = "*"
serdo = "*"
