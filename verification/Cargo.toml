[package]
name = "cadenza"
version = "0.1.0"
edition = "2021"
publish = false

[dependencies]
serde = { version = "=1.0.229", features = ["derive"] }
serde_json = "=1.0.154"
serde_yaml = "=0.9.34"
camino = "=1.2.6"
minijinja = "=2.24.0"
thiserror = "=2.0.21"
anyhow = "=1.0.104"
clap = { version = "=4.6.7", features = ["derive"] }
tracing = "=0.1.44"
tracing-subscriber = { version = "=0.3.23", features = ["env-filter"] }
tokio = { version = "=1.54.1", features = ["process", "io-util", "time", "sync", "macros", "rt-multi-thread"] }
async-trait = "=0.1.92"
axum = "=0.7.9"
reqwest = { version = "=0.12.28", default-features = false, features = ["json", "blocking", "rustls-tls"] }
notify = "=6.1.1"
libc = "=0.2.191"
wasmtime = { version = "=45.0.3", default-features = false, features = ["component-model", "cranelift", "runtime"] }
wasmparser = "=0.263.0"
