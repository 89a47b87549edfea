[package]
name = "decomp_toolkit"
version = "0.1.0"
edition = "2021"
publish = false

[dependencies]
anyhow = "=1.0.104"
argp = "=0.4.1"
log = "=0.4.35"
object = { version = "=0.37.3", default-features = false, features = ["read_core", "std", "elf", "unaligned"] }
typed-path = "=0.11.0"
