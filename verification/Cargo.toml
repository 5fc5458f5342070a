[package]
name = "gyr"
version = "0.1.0"
edition = "2021"
publish = false

[dependencies]
fuzzy-matcher = "0.3"
sled = "0.34"
directories = "*"
dirs = "*"
eyre = "*"
lexopt = "*"
libc = "*"
shell-words = "*"
termion = "1.5"
toml = "*"
serde = { version = "*", features = ["derive"] }
tui = { version = "0.19", default-features = false, features = ["termion"] }
walkdir = "*"
