[package]
name = "palet"
version = "0.1.0"
edition = "2021"
publish = false

[dependencies]
evalexpr = "=13.1.0"
freedesktop_entry_parser = "=1.3.0"
urlencoding = "=2.1.3"
serde = { version = "=1.0.229", features = ["derive"] }
serde_json = "=1.0.154"
toml = "=1.1.0"
dirs = "=7.0.0"
log = "=0.4.34"
rusqlite = "=0.40.2"
gtk4 = "=0.11.5"
