[package]
name = "ssb_clmr"
version = "0.1.0"
edition = "2021"
publish = false

[dependencies]
ssb-legacy-msg-data = "=0.1.4"
varu64 = "=0.7.0"
