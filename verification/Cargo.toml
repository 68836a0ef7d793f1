[package]
name = "clorus_runtime"
version = "0.1.0"
edition = "2021"
publish = false

[dependencies]
regex-lite = "=0.1.9"
serde = { version = "=1.0.229", features = ["derive"] }
toml = "=1.1.8"
once_cell = "*"
rustyline = "*"
libloading = "*"
zip = { version = "*", default-features = false, features = ["deflate"] }
