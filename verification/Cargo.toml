[package]
name = "iz"
version = "0.1.0"
edition = "2021"
publish = false

[dependencies]
async-trait = "*"
parking_lot = "*"
reqwest = { version = "=0.13.5", default-features = false, features = ["json", "multipart"] }
serde = { version = "1", features = ["derive"] }
serde_json = "=1.0.154"
thiserror = "*"
time = { version = "=0.3.55", features = ["formatting", "parsing", "serde"] }
tokio = { version = "1", features = ["rt-multi-thread", "macros", "net", "time", "sync", "signal", "io-util"] }
topcoat = { version = "=0.6.2", default-features = false, features = ["asset", "cookie", "discover", "router", "serve"] }
turso = { version = "=0.8.3", default-features = false }
uuid = { version = "=1.29.0", features = ["v4"] }
