[package]
name = "edit_context"
version = "0.1.0"
edition = "2021"
publish = false

[dependencies]
uuid = { version = "*", features = ["v4"] }
chrono = "*"
rust-ini = "*"
copy_dir = "*"
