[package]
name = "neocurl"
version = "0.1.0"
edition = "2021"
publish = false

[dependencies]
anyhow = "1"
base64 = "0.22"
chrono = "0.4"
clap = { version = "4", features = ["derive"] }
dotenv = "0.15"
futures = "0.3"
indicatif = "0.17"
linefeed = "0.6"
mlua = { version = "0.10", features = ["lua54", "vendored"] }
once_cell = "1"
owo-colors = "4"
pyo3 = "0.25"
reqwest = { version = "0.12", default-features = false, features = ["blocking"] }
tokio = { version = "1", features = ["full"] }
tracing = "0.1"
tracing-subscriber = { version = "0.3", features = ["env-filter"] }
