[package]
name = "startgg-interactions"
version = "0.1.0"
edition = "2021"
publish = false

[dependencies]
skillratings = "*"
json = "*"
tokio = { version = "*", features = ["rt-multi-thread", "macros", "time"] }
reqwest = { version = "*", default-features = false, features = ["rustls-tls"] }
sqlx = { version = "*", default-features = false, features = ["runtime-tokio", "sqlite"] }
indicatif = "*"
thirtyfour = "*"
