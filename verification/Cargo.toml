[package]
name = "zopra"
version = "0.1.0"
edition = "2021"
publish = false

[dependencies]
tw_merge = "=0.1.22"
syn = { version = "=2.0.119", features = ["full", "visit", "visit-mut"] }
quote = "=1.0.47"
proc-macro2 = "=1.0.107"
