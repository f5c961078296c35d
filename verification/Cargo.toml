[package]
name = "shaken"
version = "0.1.0"
edition = "2021"
publish = false

[dependencies]
rand = "=0.6.5"
hashbrown = "=0.5.0"
serde = { version = "=1.0.229", features = ["derive"] }
serde_json = "=1.0.154"
ureq = "=1.5.5"
curl = "=0.4.51"
chrono = { version = "0.4", default-features = false, features = ["clock", "std"] }
rusqlite = { version = "0.31", features = ["bundled"] }
directories = "5"
