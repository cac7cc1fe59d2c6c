[package]
name = "forecast_bands"
version = "0.1.0"
edition = "2021"
publish = false

[dependencies]
chrono = "0.4"
clap = { version = "3", features = ["derive"] }
config = "0.13"
dotenv = "0.15"
env_logger = "0.9"
log = "0.4"
plotly = "0.8"
plotters = "0.3"
polars = "0.23"
reqwest = { version = "0.11", features = ["blocking", "json"] }
serde = { version = "1", features = ["derive"] }
serde_json = "1"
thiserror = "1"
