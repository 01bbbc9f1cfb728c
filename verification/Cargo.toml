[package]
name = "raven"
version = "0.1.0"
edition = "2021"
publish = false

[dependencies]
tokio = { version = "*", features = ["rt-multi-thread", "net", "sync", "io-util", "macros", "time"] }
portable-pty = "*"
directories = "*"
