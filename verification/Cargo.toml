[package]
name = "docs_rs_mcp"
version = "0.1.0"
edition = "2021"
publish = false

[dependencies]
semver = "=1.0.28"
rustdoc-types = "=0.61.0"
serde = { version = "=1.0.229", features = ["derive"] }
serde_json = "=1.0.154"
anyhow = "=1.0.104"
thiserror = "=2.0.21"
tokio = { version = "=1.54.1", features = ["full"] }
reqwest = { version = "=0.12.28", default-features = false, features = ["json", "stream", "rustls-tls"] }
rmcp = { version = "=3.8.0", features = ["server", "macros", "transport-io"] }
cargo-manifest = "=0.21.0"
parse-changelog = { version = "=0.6.18", default-features = false }
walkdir = "=2.5.0"
flate2 = "=1.1.10"
tar = "=0.4.46"
zstd = "=0.13.4"
async-compression = { version = "=0.4.52", features = ["tokio", "zstd"] }
futures-util = "=0.3.34"
tokio-util = { version = "=0.7.20", features = ["io"] }
moka = { version = "=0.12.16", features = ["future"] }
directories = "=6.0.0"
figment = { version = "=0.10.19", features = ["toml"] }
clap = { version = "=4.6.7", features = ["derive"] }
serde_with = "=3.24.0"
tracing = "=0.1.44"
tracing-subscriber = { version = "=0.3.23", features = ["env-filter", "json"] }
tracing-appender = "=0.2.5"
opentelemetry = "*"
opentelemetry_sdk = { version = "*", features = ["rt-tokio"] }
opentelemetry-otlp = { version = "*", features = ["grpc-tonic"] }
tracing-opentelemetry = "*"
