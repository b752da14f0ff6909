[package]
name = "just"
version = "0.1.0"
edition = "2021"
publish = false

[dependencies]
chrono = "=0.4.45"
dirs = "=7.0.0"
git2 = { version = "=0.21.0", default-features = false }
ctrlc = "=3.5.2"
edit-distance = "=2.2.2"
serde_json = "1"
