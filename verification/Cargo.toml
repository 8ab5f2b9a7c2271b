[package]
name = "rich_tui_core"
version = "0.1.0"
edition = "2021"
publish = false

[dependencies]
url = "=2.5.8"
pulldown-cmark = { version = "=0.10.3", default-features = false }
unicode-segmentation = "=1.13.3"
ratatui = { version = "=0.29.0", default-features = false }
rmcp = { version = "=3.8.0", features = ["client", "auth", "transport-streamable-http-client", "client-side-sse"] }
oauth2 = "=5.0.0"
http = "=1.5.0"
futures = "=0.3.34"
sse-stream = "=0.2.6"
serde = { version = "=1.0.229", features = ["derive"] }
serde_json = "=1.0.154"
tokio = { version = "=1.54.1", features = ["rt", "macros", "time", "fs"] }
tokio-stream = "=0.1.19"
anyhow = "=1.0.104"
tracing = "=0.1.44"
reqwest = { version = "=0.13.5", default-features = false, features = ["json", "stream"] }
