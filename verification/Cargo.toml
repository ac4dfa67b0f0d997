[package]
name = "ds_verify"
version = "0.1.0"
edition = "2021"
publish = false

[dependencies]
agent-client-protocol = "=5.0.0"
anyhow = "1"
async-trait = "0.1"
base64 = "=0.22.1"
dunce = "1"
fs2 = "0.4"
futures = "0.3"
indexmap = "=2.14.2"
libc = "0.2"
reqwest = { version = "=0.12.28", default-features = false, features = ["json", "rustls-tls"] }
serde = { version = "1", features = ["derive"] }
serde_json = "=1.0.154"
sha2 = "=0.10.9"
tempfile = "3"
tokio = { version = "1", features = ["fs", "io-util", "macros", "net", "process", "rt-multi-thread", "sync", "time"] }
toml = "=0.9.12"
toml_edit = "=0.23.10"
tracing = "0.1"
url = "=2.5.8"
uuid = { version = "=1.29.0", features = ["v4", "v7"] }
walkdir = "2"
webbrowser = "1"
