[package]
name = "ledger"
version = "0.1.0"
edition = "2021"
publish = false

[dependencies]
arboard = { version = "*", default-features = false }
clap = { version = "4", features = ["derive", "env"] }
crossterm = "*"
dirs = "*"
jiff = "0.2"
ratatui = "*"
rusqlite = { version = "*", features = ["bundled"] }
rust_decimal = "1"
serde = { version = "1", features = ["derive"] }
serde_json = "1"
thiserror = "2"
ulid = "*"
