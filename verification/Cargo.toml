[package]
name = "herdr-worktree-setup"
version = "0.1.1"
edition = "2021"
publish = false

[dependencies]
ansi-to-tui = "7"
anyhow = "1"
clap = { version = "4", features = ["derive"] }
crossterm = "0.28"
globset = "0.4"
libc = "0.2"
ratatui = "0.29"
reflink-copy = "0.1"
serde = { version = "1", features = ["derive"] }
serde_json = "1"
strip-ansi-escapes = "0.2"
toml = "0.8"
walkdir = "2"
which = "7"
