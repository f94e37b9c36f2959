[package]
name = "tracing_stackdriver"
version = "0.1.0"
edition = "2021"
publish = false

[dependencies]
Inflector = { version = "0.11", default-features = false }
serde = { version = "1", features = ["derive"] }
serde_json = "1"
time = { version = "0.3", features = ["formatting", "parsing"] }
thiserror = "1"
tracing-core = "0.1"
tracing-subscriber = { version = "0.3", features = ["json"] }
opentelemetry = { version = "0.20", default-features = false, features = ["trace"] }
tracing-opentelemetry = { version = "0.21", default-features = false }
valuable = "0.1"
valuable-serde = "0.1"
http = "1"
url = "2"
