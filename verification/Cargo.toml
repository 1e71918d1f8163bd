[package]
name = "baras"
version = "0.1.0"
edition = "2021"
publish = false

[dependencies]
memchr = "=2.8.3"
memmap2 = "=0.9.12"
rayon = "=1.12.0"
tokio = { version = "=1.54.1", features = ["rt-multi-thread", "macros", "fs", "io-util", "time", "sync"] }
clap = { version = "=4.6.7", features = ["derive"] }
chrono = { version = "=0.4.45", default-features = false, features = ["std", "clock"] }
serde = { version = "=1.0.229", features = ["derive"] }
toml = "=1.1.8"
confy = "=2.0.0"
dirs = "=7.0.0"
flate2 = "=1.1.10"
encoding_rs = "=0.8.44"
reqwest = { version = "0.12", default-features = false, features = ["multipart", "rustls-tls"] }
