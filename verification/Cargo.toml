[package]
name = "fuzzy_suggest"
version = "0.1.0"
edition = "2021"
publish = false

[dependencies]
nucleo = "*"
nucleo-matcher = "*"
deunicode = "*"
uuid = { version = "*", features = ["v4"] }
serde = { version = "*", features = ["derive"] }
serde_json = "*"
axum = "*"
tokio = { version = "*", features = ["macros", "rt-multi-thread", "net", "time", "sync"] }
tower-sessions = "*"
time = "*"
clap = { version = "*", features = ["derive"] }
reqwest = { version = "*", default-features = false, features = ["blocking", "json", "cookies"] }
inquire = "*"
