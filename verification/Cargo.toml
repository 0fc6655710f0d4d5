[package]
name = "stock_report"
version = "0.1.0"
edition = "2021"
publish = false

[dependencies]
chrono = "*"
clap = { version = "*", features = ["derive"] }
yahoo_finance_api = { version = "*", features = ["blocking"] }
