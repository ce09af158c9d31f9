[package]
name = "ez_shark"
version = "0.1.0"
edition = "2021"
publish = false

[dependencies]
bytes = "*"
cookie = "*"
http = "*"
serde = { version = "*", features = ["derive"] }
serde_json = "*"
shell-words = "*"
time = { version = "*", features = ["formatting"] }
tokio = { version = "*", features = ["fs", "macros", "rt-multi-thread"] }
url = "*"
