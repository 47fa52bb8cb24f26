[package]
name = "msxterm"
version = "0.1.0"
edition = "2021"
publish = false

[dependencies]
clap = { version = "4", features = ["derive"] }
rustyline = "14"
serial2 = "0.2"
strip-ansi-escapes = "0.2"
