[package]
name = "pigeon"
version = "0.1.0"
edition = "2021"
publish = false

[dependencies]
clap = { version = "4", features = ["derive"] }
config = { version = "0.15", default-features = false, features = ["toml"] }
cosmic-text = "*"
image = { version = "0.25", default-features = false, features = ["png", "jpeg"] }
notify = "*"
serde = { version = "1", features = ["derive"] }
serde_json = "1"
smithay-client-toolkit = "*"
tokio = { version = "1", features = ["rt", "rt-multi-thread", "sync", "time", "macros"] }
toml = "*"
toml_edit = "*"
tracing = "0.1"
tracing-subscriber = { version = "0.3", features = ["env-filter", "fmt"] }
zbus = { version = "5", default-features = false, features = ["tokio"] }
