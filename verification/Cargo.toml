[package]
name = "kanban"
version = "0.1.0"
edition = "2021"
publish = false

[dependencies]
chrono = "*"
fractional_index = "*"
pinyin = "*"
rusqlite = { version = "*", features = ["bundled"] }
serde = { version = "*", features = ["derive"] }
toml = "*"
