[package]
name = "post_store"
version = "0.1.0"
edition = "2021"
publish = false

[dependencies]
chrono = { version = "=0.4.45", features = ["serde"] }
serde = { version = "=1.0.229", features = ["derive"] }
serde_json = "=1.0.151"
diesel = { version = "=2.3.14", features = ["postgres", "serde_json", "chrono"] }
