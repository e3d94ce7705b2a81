[package]
name = "url_validator"
version = "0.1.0"
edition = "2021"
publish = false

[dependencies]
futures = "=0.3.34"
itertools = "=0.13.0"
regex = "=1.13.1"
reqwest = { version = "=0.12.28", default-features = false, features = ["default-tls"] }
tokio = { version = "=1.54.1", features = ["macros", "rt-multi-thread"] }
