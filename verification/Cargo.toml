[package]
name = "gtmov"
version = "0.1.0"
edition = "2021"
publish = false

[dependencies]
mime_guess = "2"
regex = "1"
regex-syntax = "*"
actix-web = { version = "4", default-features = false, features = ["macros"] }
actix-cors = "*"
async-stream = "*"
bytes = "1"
chrono = "*"
dotenvy = "*"
open = "*"
reqwest = { version = "*", default-features = false, features = ["rustls-tls"] }
rust-embed = "*"
serde = { version = "1", features = ["derive"] }
serde_json = "1"
sqlx = { version = "*", default-features = false, features = ["sqlite", "runtime-tokio", "macros"] }
sysinfo = "*"
tmdb-api = "*"
tokio = { version = "1", features = ["full"] }
