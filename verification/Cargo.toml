[package]
name = "stratify"
version = "1.0.0"
edition = "2021"
publish = false

[dependencies]
async-trait = "0.1"
azure_core = { version = "=1.1.0", default-features = false }
dotenvy = "0.15"
flate2 = "=1.1.10"
opentelemetry = "=0.31.0"
opentelemetry-appender-tracing = "=0.31.1"
opentelemetry-application-insights = { version = "=0.44.0", features = ["reqwest-blocking-client"] }
opentelemetry-http = { version = "=0.31.0", features = ["reqwest-blocking"] }
opentelemetry_sdk = "=0.31.0"
reqwest = { version = "=0.12.28", default-features = false, features = ["json", "blocking"] }
serde = { version = "1", features = ["derive"] }
serde_json = "=1.0.154"
serde_norway = "=0.9.42"
thiserror = "2"
time = { version = "=0.3.55", features = ["formatting", "local-offset", "macros"] }
toml = "=1.1.8"
tracing = "0.1"
tracing-appender = "0.2"
tracing-opentelemetry = "=0.32.1"
tracing-subscriber = { version = "=0.3.23", features = ["env-filter", "json", "time"] }

[dev-dependencies]
tempfile = "3"
