[package]
name = "chnroutes"
version = "0.1.0"
edition = "2021"
publish = false

[dependencies]
clap = "=2.34.0"
ipnet = "=2.12.2"
iprange = "=0.6.7"
slog = "=2.8.2"
slog-async = "=2.8.0"
slog-scope = "=4.4.1"
slog-term = "=2.9.2"
