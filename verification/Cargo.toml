[package]
name = "rust_minify"
version = "0.1.0"
edition = "2021"
publish = false

[dependencies]
fxhash = "0.2"
proc-macro2 = { version = "1", features = ["span-locations"] }
quote = "1"
syn = { version = "2", features = ["full", "visit", "visit-mut", "extra-traits"] }
