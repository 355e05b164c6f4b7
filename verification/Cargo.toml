[package]
name = "constance"
version = "0.1.0"
edition = "2021"
publish = false

[dependencies]
atomic_ref = "=0.2.1"
env_logger = "=0.11.11"
log = "=0.4.34"
once_cell = "=1.21.4"
parking_lot = "=0.13.0"
wyhash = "=0.6.0"
