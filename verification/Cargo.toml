[package]
name = "bsl_context"
version = "0.1.0"
edition = "2021"
publish = false

[dependencies]
anyhow = "1"
axum = "*"
chrono = "0.4"
quick-xml = "0.37"
rayon = "1"
regex = "1"
rmcp = { version = "*", features = ["server", "macros", "transport-streamable-http-server"] }
rusqlite = { version = "*", features = ["bundled"] }
schemars = "1"
serde = { version = "1", features = ["derive"] }
serde_json = "1"
sysinfo = "*"
tokio = { version = "1", features = ["rt-multi-thread", "macros", "net", "sync", "signal", "time"] }
toml = "0.8"
tracing = "0.1"
walkdir = "2"
