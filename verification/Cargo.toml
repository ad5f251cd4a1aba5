[package]
name = "css_engine"
version = "0.1.0"
edition = "2021"
publish = false

[dependencies]
lightningcss = { version = "=1.0.0-alpha.72", default-features = false }
