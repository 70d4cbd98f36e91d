[package]
name = "supercollider_mcp"
version = "0.1.0"
edition = "2021"
publish = false

[dependencies]
anyhow = "*"
axum = "*"
clap = { version = "*", features = ["derive"] }
rmcp = { version = "*", features = ["server", "transport-io", "transport-streamable-http-server"] }
serde = { version = "*", features = ["derive"] }
sysinfo = "*"
tokio = { version = "*", features = ["full"] }
tokio-util = "*"
