[package]
name = "metric_calculator"
version = "0.1.0"
edition = "2021"
publish = false

[dependencies]
chrono = "0.4"
redis = "0.25"
serde_json = "1"
ureq = { version = "2", default-features = false, features = ["json"] }
