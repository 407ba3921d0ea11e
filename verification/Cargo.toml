[package]
name = "truc"
version = "0.1.0"
edition = "2021"
publish = false

[dependencies]
syn = { version = "2", features = ["full", "visit-mut"] }
quote = "1"
codegen = "0.2"
itertools = "*"
tap = "1"
maplit = "1"
serde = { version = "1", features = ["derive"] }
serde_json = "1"
uuid = "1"
