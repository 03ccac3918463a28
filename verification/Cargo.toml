[package]
name = "carbonite"
version = "1.0.0"
edition = "2021"
publish = false

[dependencies]
glam = "*"
proc-macro2 = "1"
quote = "1"
serde = { version = "1", features = ["derive"] }
syn = { version = "2", features = ["full", "extra-traits"] }
thiserror = "2"
