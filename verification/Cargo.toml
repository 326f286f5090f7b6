[package]
name = "oxyromon"
version = "0.1.0"
edition = "2021"
publish = false

[dependencies]
shiratsu-naming = "*"
quick-xml = { version = "*", features = ["serialize"] }
serde = { version = "*", features = ["derive"] }
clap = { version = "*", features = ["derive"] }
indicatif = "*"
regex = "*"
tempfile = "*"
