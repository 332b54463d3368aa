[package]
name = "mlzlog"
version = "0.1.0"
edition = "2021"
publish = false

[dependencies]
ansi_term = "0.12"
anyhow = "1"
hashbrown = "*"
log = "0.4"
log-mdc = "0.1"
log4rs = { version = "1", default-features = false, features = ["pattern_encoder", "simple_writer"] }
once_cell = "1"
parking_lot = "0.12"
systemd = "*"
time = { version = "0.3", features = ["formatting", "local-offset"] }
