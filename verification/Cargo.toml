[package]
name = "cobblestone"
version = "0.1.0"
edition = "2021"
publish = false

[dependencies]
anyhow = "*"
chrono = "*"
clap = { version = "*", features = ["derive"] }
dirs = "*"
md5 = "*"
reqwest = { version = "*", default-features = false, features = ["blocking"] }
rpassword = "*"
serde = { version = "*", features = ["derive"] }
serde_json = "*"
