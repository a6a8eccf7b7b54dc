[package]
name = "judicious"
version = "0.1.0"
edition = "2021"
publish = false

[dependencies]
chrono = "0.4"
clap = { version = "4", features = ["derive"] }
semver = "1"
serde = { version = "1", features = ["derive"] }
thiserror = "2"
tokio = { version = "1", features = ["time", "rt", "macros"] }
toml_edit = "0.22"
tracing = "0.1"
ureq = { version = "3", features = ["json"] }
