[package]
name = "voxcaster"
version = "0.1.0"
edition = "2021"
publish = false

[dependencies]
globset = "0.4"
strip-ansi-escapes = "0.2"
serde = { version = "1", features = ["derive"] }
serde_json = "1"
toml = "0.8"
thiserror = "2"
anyhow = "1"
tokio = { version = "1", features = ["macros", "rt-multi-thread", "sync", "time", "signal", "io-std"] }
portable-pty = "0.9"
rmcp = { version = "1.7", features = ["server", "transport-io", "macros"] }
schemars = "1"
