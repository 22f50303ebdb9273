[package]
name = "veda"
version = "0.1.0"
edition = "2021"
publish = false

[dependencies]
crc32fast = "=1.5.3"
actix = "=0.13.5"
actix-web = "=4.18.1"
actix-web-actors = "=4.3.1"
v_queue = "=0.3.3"
log = "=0.4.34"
env_logger = "=0.11.11"
rust-ini = "=0.21.3"
reqwest = { version = "=0.13.5", default-features = false, features = ["blocking"] }
form_urlencoded = "=1.2.2"
scan_fmt = "=0.2.6"
