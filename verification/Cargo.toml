[package]
name = "version_updater"
version = "0.1.0"
edition = "2021"
publish = false

[dependencies]
serde_json = "=1.0.151"
serde_yaml = "=0.9.34"
plist = "=1.10.1"
xmltree = { version = "=0.12.0", features = ["attribute-order"] }
