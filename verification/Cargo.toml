[package]
name = "complex_code_spotter"
version = "0.1.0"
edition = "2021"
publish = false

[dependencies]
rust-code-analysis = "=0.0.24"
globset = "=0.4.21"
serde = { version = "=1.0.229", features = ["derive"] }
serde_json = "=1.0.154"
minijinja = "=3.0.5"
thiserror = "=1.0.69"
tracing = "=0.1.44"
tracing-subscriber = { version = "=0.3.23", features = ["env-filter"] }
walkdir = "=2.5.0"
crossbeam = "=0.8.5"
rayon = "=1.12.0"
clap = { version = "=4.6.7", features = ["derive"] }
cargo_metadata = "=0.23.1"
