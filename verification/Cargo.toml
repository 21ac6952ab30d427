[package]
name = "oxo_tui"
version = "0.1.0"
edition = "2021"
publish = false

[dependencies]
regex = "=1.13.1"
chrono = { version = "=0.4.45", default-features = false, features = ["std", "clock"] }
crossterm = { version = "=0.28.1", features = ["event-stream"] }
tui-input = "=0.11.1"
ratatui = "=0.29.0"
serde = { version = "=1.0.229", features = ["derive"] }
serde_json = "=1.0.154"
toml = "=0.8.23"
dirs = "=5.0.1"
directories = "=5.0.1"
anyhow = "=1.0.104"
tokio = { version = "=1.54.1", features = ["rt-multi-thread", "macros", "sync", "time"] }
futures-util = "=0.3.34"
tracing = "=0.1.44"
arboard = { version = "=3.7.0", default-features = false }
wasmtime = { version = "=45.0.3", default-features = false, features = ["cranelift", "runtime"] }
