[package]
name = "bookkeeping"
version = "0.1.0"
edition = "2021"
publish = false

[dependencies]
slotmap = "1"
chrono = { version = "0.4", default-features = false, features = ["std", "clock"] }
rust_decimal = "1"
duplicate = "0.2"
