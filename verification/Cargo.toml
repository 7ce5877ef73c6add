[package]
name = "minihttp"
version = "0.1.0"
edition = "2021"
publish = false

[dependencies]
percent-encoding = "2"
md5 = "0.7"
chrono = "0.4"
tokio = { version = "1", features = ["rt-multi-thread", "net", "io-util", "macros", "time"] }
