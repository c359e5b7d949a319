[package]
name = "lox"
version = "0.1.0"
edition = "2021"
publish = false

[dependencies]
eq-float = "*"
generational-arena = "0.2"
clap = { version = "4", features = ["derive"] }
walkdir = "2"
expect-test = "1"
tracing = "0.1"
tracing-subscriber = { version = "0.3", features = ["env-filter"] }
wasm-bindgen = "0.2"
