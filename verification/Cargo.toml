[package]
name = "kbism"
version = "0.1.0"
edition = "2021"
publish = false

[dependencies]
rand = "0.10"
rand_chacha = { version = "0.10", features = ["serde"] }
ron = { version = "0.12", features = ["integer128"] }
serde = { version = "1", features = ["derive"] }
