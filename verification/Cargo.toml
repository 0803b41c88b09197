[package]
name = "sticky_situation"
version = "0.1.0"
edition = "2021"
publish = false

[dependencies]
rusqlite = { version = "*", features = ["bundled"] }
plist = "*"
clap = { version = "*", features = ["derive"] }
directories = "*"
hostname = "*"
uuid = { version = "*", features = ["v4"] }
serde = { version = "*", features = ["derive"] }
toml = "*"
thiserror = "*"

[dev-dependencies]
tempfile = "*"
