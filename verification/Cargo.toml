[package]
name = "broken_nest"
version = "0.1.0"
edition = "2021"
publish = false

[dependencies]
ctrlc = "3"
env_logger = "*"
jack = "*"
lilv = "*"
log = "0.4"
lv2_raw = "*"
rtrb = "*"
serde = { version = "1", features = ["derive"] }
thiserror = "*"
toml = "*"

[dev-dependencies]
tempfile = "3"
