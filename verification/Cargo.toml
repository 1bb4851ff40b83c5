[package]
name = "ethercat_master"
version = "0.1.0"
edition = "2021"
publish = false

[dependencies]
embedded-hal = "0.2"
fugit = "0.3"
heapless = "0.7"
log = "0.4"
nb = "1"
