[package]
name = "file_integrity"
version = "0.1.0"
edition = "2021"
publish = false

[dependencies]
md-5 = "0.10"
chrono = "0.4"
walkdir = "2"
my_logger = "*"
serde = { version = "1", features = ["derive"] }
serde_json = "1"
