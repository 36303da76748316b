[package]
name = "quizzer"
version = "0.1.0"
edition = "2021"
publish = false

[dependencies]
md-5 = "*"
uuid = { version = "*", features = ["v4"] }
postgres = "*"
r2d2 = "*"
r2d2_postgres = "*"
serde = { version = "*", features = ["derive"] }
serde_json = "*"
log = "*"
simple_logger = "*"
