[package]
name = "guidance"
version = "0.1.0"
edition = "2021"

[dependencies]
nalgebra = { version = "*", default-features = false, features = ["std"] }
