[package]
name = "crontab_rs"
version = "0.1.1"
edition = "2021"
publish = false

[dependencies]
chrono = "0.4"
chrono-tz = "0.10"
clap = { version = "4", features = ["derive"] }
libc = "0.2"
log = "0.4"
nix = { version = "0.30", features = ["fs", "hostname", "process", "signal", "user"] }
rand = "0.9"
signal-hook = "0.3"
syslog = "7"
tempfile = "3"
