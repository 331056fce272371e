[package]
name = "flequit_ui"
version = "0.1.0"
edition = "2021"
publish = false

[dependencies]
unicode-normalization = "=0.1.26"
chrono = "=0.4.45"
chrono-tz = "=0.10.4"
thiserror = "2"
uuid = { version = "1", features = ["v4"] }
