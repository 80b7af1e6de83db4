[package]
name = "covid_report"
version = "0.1.0"
edition = "2021"
publish = false

[dependencies]
chrono = { version = "0.4", features = ["serde"] }
serde = { version = "1", features = ["derive"] }
toml = "*"
reqwest = { version = "*", default-features = false, features = ["blocking", "json"] }
lettre = "0.9"
flot = "*"
