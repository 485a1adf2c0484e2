[package]
name = "wml"
version = "0.1.0"
edition = "2021"
publish = false

[dependencies]
regex = "1"
sha1 = "0.10"
serde = { version = "1", features = ["derive"] }
serde_json = "1"
clap = { version = "4", features = ["derive"] }
dirs = "5"
tokio = { version = "1", features = ["macros", "rt-multi-thread", "fs", "time", "io-util"] }
reqwest = { version = "0.12", default-features = false, features = ["json", "rustls-tls"] }
futures = "0.3"
walkdir = "2"
zip = { version = "2", default-features = false, features = ["deflate"] }
