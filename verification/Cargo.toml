[package]
name = "pretty-ens"
version = "0.1.0"
edition = "2021"
publish = false

[dependencies]
alloy = { version = "~1.0", default-features = false }
anyhow = "1"
chrono = { version = "0.4", default-features = false, features = ["now", "alloc", "serde"] }
clap = { version = "4", default-features = false, features = ["std", "derive", "help", "usage", "error-context"] }
futures = { version = "0.3", default-features = false, features = ["std"] }
governor = { version = "0.10", default-features = false, features = ["std"] }
indicatif = { version = "0.17", default-features = false }
rand = "0.8"
reqwest = { version = "0.12", default-features = false, features = ["rustls-tls"] }
serde = { version = "1", features = ["derive"] }
serde_json = "1"
sha2 = "0.10"
tokio = { version = "1", features = ["fs", "io-util", "macros", "rt-multi-thread", "signal", "sync", "time"] }
tracing = { version = "0.1", default-features = false, features = ["std"] }
tracing-subscriber = { version = "0.3", default-features = false, features = ["fmt", "env-filter"] }
