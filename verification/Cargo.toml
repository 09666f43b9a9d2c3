[package]
name = "mdsite"
version = "0.1.0"
edition = "2021"
publish = false

[dependencies]
ammonia = "*"
clap = { version = "*", features = ["derive"] }
comrak = "*"
serde = "*"
serde_json = "*"
serde_yaml = "*"
tinytemplate = "*"
walkdir = "*"
