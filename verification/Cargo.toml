[package]
name = "sushi_gen"
version = "0.1.0"
edition = "2021"
publish = false

[dependencies]
chrono = "=0.4.45"
serde_yaml = "=0.9.34"
liquid = "=0.24.0"
toml = "=1.1.7"
pulldown-cmark = "=0.13.4"
subprocess = "=1.2.1"
clap = { version = "=4.6.7", features = ["derive"] }
directories = "=6.0.0"
fs_extra = "=1.3.0"
