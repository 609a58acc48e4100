[package]
name = "moves"
version = "0.1.0"
edition = "2021"
publish = false

[dependencies]
anyhow = "1"
chrono = "0.4"
clap = { version = "4", features = ["derive"] }
libc = "0.2"
tokio = { version = "1", features = ["rt-multi-thread", "time"] }
