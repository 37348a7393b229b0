[package]
name = "pool_twap"
version = "0.1.0"
edition = "2021"
publish = false

[dependencies]
anyhow = "1"
chrono = { version = "0.4", default-features = false, features = ["std"] }
chrono-tz = { version = "0.10", default-features = false, features = ["std"] }
clap = { version = "4", default-features = false, features = ["derive", "std", "help", "usage", "error-context"] }
ethers = { version = "2", default-features = false, features = ["abigen"] }
tokio = { version = "1", features = ["macros", "rt-multi-thread"] }
