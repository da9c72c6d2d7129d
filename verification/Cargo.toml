[package]
name = "versioned_store"
version = "0.1.0"
edition = "2021"
publish = false

[dependencies]
redis = { version = "*", default-features = false }
