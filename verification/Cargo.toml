[package]
name = "orion-core"
version = "0.1.0"
edition = "2021"
publish = false

[dependencies]
serde = { version = "1", features = ["derive"] }
serde_json = "1"
chrono = { version = "0.4", default-features = false, features = ["clock"] }
thiserror = "2"
log = "0.4"
async-trait = "0.1"
tokio = { version = "1", features = ["rt", "rt-multi-thread", "macros", "sync"] }
reqwest = { version = "0.12", default-features = false, features = ["blocking", "json"] }
