[package]
name = "jmdictdb"
version = "0.1.0"
edition = "2021"
publish = false

[dependencies]
regex = "1"
serde_json = "1"
serde = { version = "1", features = ["derive"] }
quick-xml = { version = "*", features = ["serialize"] }
sqlx = { version = "0.8", default-features = false, features = ["sqlite", "runtime-tokio", "migrate", "derive"] }
tokio = { version = "1", features = ["macros", "rt-multi-thread"] }
