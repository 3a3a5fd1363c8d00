[package]
name = "project_rules"
version = "0.1.0"
edition = "2021"
publish = false

[dependencies]
ignore = "=0.4.34"
log = "=0.4.35"
async-fs = "=2.2.0"
anyhow = "=1.0.104"
