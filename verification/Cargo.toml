[package]
name = "macclean"
version = "0.1.0"
edition = "2021"
publish = false

[dependencies]
anyhow = "1"
blake3 = { version = "1", default-features = false, features = ["std", "pure"] }
clap = { version = "4", features = ["derive"] }
crossterm = "0.28"
jwalk = "0.8"
libc = "0.2"
ratatui = "0.29"
rayon = "1"
serde = { version = "1", features = ["derive"] }
toml = "0.8"
trash = "5"
