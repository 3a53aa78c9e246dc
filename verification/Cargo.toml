[package]
name = "hodoq"
version = "0.1.0"
edition = "2021"
publish = false

[dependencies]
time = { version = "0.3", features = ["local-offset", "parsing", "formatting", "macros"] }
uuid = { version = "1", features = ["v4"] }
