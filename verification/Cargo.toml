[package]
name = "calling_process"
version = "0.1.0"
edition = "2021"
publish = false

[dependencies]
lazy_static = "1.4"
sysinfo = { version = "0.22", default-features = false }
