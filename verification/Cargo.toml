[package]
name = "fin"
version = "0.1.0"
edition = "2021"
publish = false

[dependencies]
regex = "1"
num-traits = "0.2"
walkdir = "2"
directories = "5"
dotenvy = "0.15"
serde = { version = "1", features = ["derive"] }
toml = "0.8"
tokio = { version = "1", features = ["rt-multi-thread"] }
sqlx = { version = "0.8", default-features = false, features = ["sqlite", "runtime-tokio", "migrate"] }
