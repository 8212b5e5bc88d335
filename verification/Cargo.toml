[package]
name = "wind_config"
version = "0.1.0"
edition = "2021"
publish = false

[dependencies]
toml = { version = "=0.7.8", features = ["preserve_order"] }
toml_edit = "=0.19.15"

[dev-dependencies]
serde = "=1.0.229"
