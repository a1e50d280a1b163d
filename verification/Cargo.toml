[package]
name = "coach"
version = "0.1.0"
edition = "2021"
publish = false

[dependencies]
time = { version = "0.3", features = ["formatting", "parsing", "macros", "local-offset"] }
clap = "2"
tempfile = "3"
arbitrary = { version = "1", features = ["derive"] }
