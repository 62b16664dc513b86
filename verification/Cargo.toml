[package]
name = "handmade_async"
version = "0.1.0"
edition = "2021"
publish = false

[dependencies]
rand = "0.8"
futures = "0.3"
libc = "0.2"
anyhow = "1"
tokio = { version = "1", features = ["macros", "rt-multi-thread", "time"] }
rayon = "1"
io-uring = "*"
