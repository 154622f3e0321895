[package]
name = "orders_plan"
version = "0.1.0"
edition = "2021"
publish = false

[dependencies]
calamine = { version = "=0.36.1", features = ["dates"] }
chrono = "=0.4.45"
rust_decimal = "=1.43.0"
rust_xlsxwriter = "=0.99.1"
