[package]
name = "qreview"
version = "0.1.0"
edition = "2021"
publish = false

[dependencies]
similar = { version = "=2.7.0", features = ["unicode"] }
sha2 = "=0.10.9"
hex = "=0.4.3"
time = { version = "=0.3.55", features = ["formatting"] }
getrandom = "=0.3.4"
serde = { version = "=1.0.229", features = ["derive"] }
serde_json = "=1.0.154"
anyhow = "=1.0.104"
clap = { version = "=4.6.7", features = ["derive"] }
syntect = { version = "5", default-features = false, features = ["parsing", "regex-fancy", "dump-load", "yaml-load"] }
two-face = { version = "0.4", default-features = false, features = ["syntect-fancy"] }
