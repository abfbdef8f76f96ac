[package]
name = "konpac"
version = "0.1.0"
edition = "2021"
publish = false

[dependencies]
sha2 = "*"
flate2 = "*"
tar = "*"
rusqlite = { version = "*", features = ["bundled"] }
reqwest = { version = "*", default-features = false }
clap = { version = "*", features = ["derive"] }
tokio = { version = "*", features = ["macros", "rt-multi-thread"] }
libc = "*"
fs_extra = "*"
walkdir = "*"
