[package]
name = "orga"
version = "0.1.0"
edition = "2021"
publish = false

[dependencies]
chrono = "=0.4.45"
serde = { version = "=1.0.229", features = ["derive"] }
serde_json = "=1.0.154"
serde_yaml = "=0.9.34"
toml = "=0.8.23"
thiserror = "=2.0.21"
clap = { version = "=4.6.7", features = ["derive"] }
async-trait = "=0.1.92"
tokio = { version = "=1.54.1", features = ["rt-multi-thread", "macros", "process", "time", "net", "io-util"] }
reqwest = { version = "=0.12.28", default-features = false, features = ["json", "blocking"] }
prometheus = { version = "=0.14.0", default-features = false }
inquire = "=0.9.4"
