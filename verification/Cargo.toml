[package]
name = "loq"
version = "0.1.0"
edition = "2021"
publish = false

[dependencies]
globset = "*"
toml = "*"
rustc-hash = "*"
strsim = "*"
clap = { version = "*", features = ["derive"] }
termcolor = "*"
ignore = "*"
rayon = "*"
pathdiff = "*"
serde = { version = "*", features = ["derive"] }
serde_json = "*"
