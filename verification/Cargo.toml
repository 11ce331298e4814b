[package]
name = "shipdb"
version = "0.1.0"
edition = "2021"
publish = false

[dependencies]
memchr = "2"
anyhow = "1"
bincode = "1"
serde = { version = "1", features = ["derive"] }
rusqlite = { version = "*", features = ["bundled"] }
plotters = "0.3"
rayon = "1"
compact_str = "*"
smallvec = "1"
fxhash = "0.2"
regex-lite = "*"
wasm-bindgen = "0.2"
console_error_panic_hook = "0.1"
