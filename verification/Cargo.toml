[package]
name = "atomr"
version = "0.1.0"
edition = "2021"
publish = false

[dependencies]
async-trait = "0.1"
bytes = "1"
chrono = { version = "0.4", default-features = false, features = ["clock", "std"] }
futures = "0.3"
futures-util = { version = "0.3", features = ["sink"] }
opentelemetry = { version = "0.24", features = ["trace"] }
opentelemetry-otlp = { version = "0.17", default-features = false, features = ["trace", "http-proto", "grpc-tonic"] }
opentelemetry-stdout = { version = "0.5", default-features = false, features = ["trace"] }
opentelemetry_sdk = { version = "0.24", features = ["trace", "rt-tokio"] }
parking_lot = "0.12"
pyo3 = { version = "0.22", features = ["abi3-py38"] }
pyo3-async-runtimes = { version = "0.22", features = ["tokio-runtime"] }
rand_chacha = "0.3"
reqwest = { version = "0.12", default-features = false }
rust_decimal = "1"
serde = { version = "1", features = ["derive"] }
sha2 = "0.10"
sqlx = { version = "0.8", default-features = false, features = ["runtime-tokio", "any", "sqlite", "postgres", "mysql"] }
thiserror = "1"
tokio = { version = "1", features = ["rt-multi-thread", "sync", "time", "net", "macros"] }
tokio-tungstenite = "0.24"
url = "2"

[dev-dependencies]
serde_json = "1"
