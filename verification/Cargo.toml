[package]
name = "replicated_kv"
version = "0.1.0"
edition = "2021"
publish = false

[dependencies]
sqlx = { version = "0.6", default-features = false, features = ["runtime-tokio-rustls", "sqlite"] }
tokio = { version = "1", features = ["macros", "rt-multi-thread", "time"] }
