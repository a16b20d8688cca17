[package]
name = "ai_store"
version = "0.9.0"
edition = "2021"
publish = false

[dependencies]
async-trait = "0.1"
json-patch = "4"
rusqlite = { version = "0.37", features = ["bundled"] }
rusqlite-isle = { version = "0.4", features = ["tokio"] }
serde = { version = "1", features = ["derive"] }
serde_json = "1"
thiserror = "2"
time = "0.3"
tokio = { version = "1", features = ["fs", "macros", "rt", "rt-multi-thread", "sync"] }

[dev-dependencies]
tempfile = "3"
