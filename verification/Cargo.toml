[package]
name = "asm-cache-inject"
version = "0.1.0"
edition = "2021"
publish = false

[dependencies]
clap = { version = "4", features = ["derive"] }
colored = "2"
crossbeam = "0.8"
ctrlc = "3"
env_logger = "0.11"
libc = "0.2"
log = "0.4"
parking_lot = "0.12"
rand = "0.8"
thiserror = "2"
