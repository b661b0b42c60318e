[package]
name = "peckish"
version = "0.1.0"
edition = "2021"
publish = false

[dependencies]
ar = "*"
brotli = "*"
clap = { version = "*", features = ["derive"] }
flate2 = "*"
md5 = "*"
serde = { version = "*", features = ["derive"] }
serde_yaml = "*"
sha2 = "*"
tar = "*"
xz2 = "*"
zstd = "*"
