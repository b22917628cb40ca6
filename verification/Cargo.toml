[package]
name = "vtcode_runloop"
version = "0.1.0"
edition = "2021"
publish = false

[dependencies]
shell-words = "=1.1.1"
serde_json = "=1.0.154"
toml = "=0.8.23"
chrono = { version = "=0.4.45", default-features = false, features = ["clock"] }
anyhow = "=1.0.104"
hashbrown = "=0.17.1"
unicode-width = "0.2"
anstyle = "1"
