[package]
name = "disk_dashboard"
version = "0.1.0"
edition = "2021"
publish = false

[dependencies]
sysinfo = "=0.30.13"
