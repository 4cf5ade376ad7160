[package]
name = "polestar"
version = "0.1.0"
edition = "2021"
publish = false

[dependencies]
uuid = { version = "1", features = ["v4", "serde"] }
serde = { version = "1", features = ["derive"] }
serde_json = "1"
url = "2"
log = "0.4"
thiserror = "1"
once_cell = "1"
tokio = { version = "1", features = ["macros", "rt-multi-thread", "sync"] }
futures-util = "0.3"
reqwest = { version = "0.11", default-features = false }
reqwest-eventsource = "0.5"
sqlx = { version = "0.7", default-features = false, features = ["sqlite", "runtime-tokio", "migrate", "macros"] }
inquire = "0.6"
reedline-repl-rs = "1"
