[package]
name = "rustlauncher"
version = "0.1.0"
edition = "2021"
publish = false

[dependencies]
md5 = "0.7"
argon2 = "0.5"
rand_core = { version = "0.6", features = ["getrandom"] }
anyhow = "1"
serde = { version = "1", features = ["derive"] }
serde_json = "1"
ureq = { version = "2", features = ["json"] }
zip = { version = "2", default-features = false, features = ["deflate"] }
rusqlite = { version = "0.32", features = ["bundled"] }
chrono = "0.4"
clap = { version = "4", features = ["derive"] }
dirs = "5"
