[package]
name = "log_searcher"
version = "0.1.0"
edition = "2021"
publish = false

[dependencies]
flate2 = "*"
zip = { version = "*", default-features = false, features = ["deflate"] }
regex = "*"
rouille = "*"
serde = { version = "*", features = ["derive"] }
os_pipe = "*"
chrono = "*"
