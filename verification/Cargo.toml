[package]
name = "apibot"
version = "0.1.0"
edition = "2021"
publish = false

[dependencies]
chrono = "=0.4.45"
clap = { version = "=4.6.7", features = ["derive"] }
dirs = "=7.0.0"
prettytable-rs = "=0.10.0"
reqwest = { version = "=0.13.5", default-features = false, features = ["blocking"] }
rusqlite = { version = "=0.40.2", features = ["bundled"] }
serde = { version = "=1.0.229", features = ["derive"] }
serde_derive = "=1.0.229"
serde_json = "=1.0.151"
serde_rusqlite = "=0.43.0"
