[package]
name = "freemkv"
version = "0.31.0"
edition = "2021"
publish = false

[dependencies]
isolang = "2.4.0"
zip = { version = "*", default-features = false, features = ["deflate"] }
libc = "*"
mimalloc = "*"
tracing-appender = "*"
tracing-subscriber = { version = "*", features = ["env-filter"] }
