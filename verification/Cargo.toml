[package]
name = "omarchycastd"
version = "0.1.0"
edition = "2021"
publish = false

[dependencies]
anyhow = "1"
dirs = "*"
fend-core = "*"
freedesktop-desktop-entry = "*"
freedesktop-icons = "*"
libc = "0.2"
notify-debouncer-full = "*"
nucleo-matcher = "*"
rusqlite = { version = "*", features = ["bundled"] }
serde = { version = "1", features = ["derive"] }
serde_json = "1"
