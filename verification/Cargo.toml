[package]
name = "sirtools"
version = "0.1.0"
edition = "2021"
publish = false

[dependencies]
indoc = "1"
rand = "0.8"
rand_distr = "0.4"
rand_xoshiro = "0.6"
rusqlite = "0.24"
serde = { version = "1", features = ["derive"] }
serde_json = "1"
unindent = "0.1"
