[package]
name = "aeco_patch_config"
version = "0.1.0"
edition = "2021"
publish = false

[dependencies]
md5 = "=0.7.0"
rayon = "=1.12.0"
clap = { version = "=4.6.7", features = ["derive"] }

[dev-dependencies]
serde = "=1.0.229"
serde_json = "=1.0.154"
