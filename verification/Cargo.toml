[package]
name = "fixture_pipeline"
version = "0.1.0"
edition = "2021"
publish = false

[dependencies]
twox-hash = "1.6"
toml = "*"
tempfile = "*"
