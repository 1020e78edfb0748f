[package]
name = "linehaul"
version = "0.1.0"
edition = "2021"
publish = false

[dependencies]
flate2 = "1"
slog = "2"
slog-async = "2"
slog-bunyan = "2"
slog-envlogger = "2"
slog-scope = "4"
slog-term = "2"
