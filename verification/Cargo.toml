[package]
name = "depviz"
version = "0.1.0"
edition = "2021"
publish = false

[dependencies]
solp = "*"
xml-rs = "*"
anyhow = "*"
cargo_toml = "*"
clap = { version = "*", features = ["derive"] }
graphviz-rust = "*"
rand = "*"
spinners = "*"
