[package]
name = "arcane"
version = "1.0.1"
edition = "2021"
publish = false

[dependencies]
anyhow = "1"
crossterm = "0.28"
fuzzywuzzy = "=0.0.2"
quickxml_to_serde = "=0.7.1"
ratatui = "0.28"
regex = "=1.13.1"
reqwest = { version = "0.13", default-features = false }
serde_json = "=1.0.154"
tokio = { version = "1", features = ["full"] }
tui-textarea = "0.6"
