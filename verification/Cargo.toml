[package]
name = "primordial"
version = "0.1.0"
edition = "2021"
publish = false

[dependencies]
rand = "0.8"
rand_chacha = "0.3"
serde = { version = "1", features = ["derive"] }
serde_json = "1"
toml = "0.8"
thiserror = "1"
clap = { version = "4", features = ["derive"] }
chrono = "0.4"
rusqlite = { version = "*", features = ["bundled"] }
rayon = "1"
