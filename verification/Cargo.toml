[package]
name = "cmd_args"
version = "0.1.0"
edition = "2021"
publish = false

[dependencies]
serde_json = "=1.0.151"
thiserror = "=2.0.21"
teloxide = "=0.17.0"
sqlx = { version = "=0.9.0", default-features = false, features = ["sqlite", "runtime-tokio"] }
spdlog-rs = "=0.5.3"
takecell = "=0.1.1"
