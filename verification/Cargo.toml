[package]
name = "factory_calc"
version = "0.1.0"
edition = "2021"
publish = false

[dependencies]
good_lp = { version = "*", default-features = false, features = ["microlp"] }
json = "*"
serde = { version = "*", features = ["derive"] }
rmp-serde = "*"
crossterm = "*"
ratatui = "*"
native-dialog = "*"
