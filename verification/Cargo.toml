[package]
name = "element"
version = "0.1.0"
edition = "2021"
publish = false

[dependencies]
evalexpr = "*"
emojis = "*"
serde = { version = "1", features = ["derive"] }
serde_json = "1"
toml = "*"
thiserror = "*"
rusqlite = { version = "*", features = ["bundled"] }
webbrowser = "*"
arboard = "*"
walkdir = "2"
image = { version = "*", default-features = false, features = ["png"] }
