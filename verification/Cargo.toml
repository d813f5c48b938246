[package]
name = "vat"
version = "0.1.0"
edition = "2021"
publish = false

[dependencies]
anyhow = "1"
chrono = "0.4"
clap = { version = "4", features = ["derive"] }
color-print = "*"
colored = "2"
dirs-next = "2"
fs_extra = "*"
git2 = { version = "*", default-features = false }
installed_pkg = "*"
semver = "1"
serde = { version = "1", features = ["derive"] }
serde_json = "1"
toml = "*"
zip = { version = "*", default-features = false, features = ["deflate"] }
