[package]
name = "kanata_control"
version = "0.1.0"
edition = "2021"
publish = false

[dependencies]
anyhow = "*"
log = "*"
notify-debouncer-mini = "*"
parking_lot = "*"
