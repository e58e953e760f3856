[package]
name = "delay_mirror"
version = "0.1.2"
edition = "2021"
publish = false

[dependencies]
axum = "0.6"
chrono = { version = "0.4", features = ["serde"] }
console_error_panic_hook = "0.1"
js-sys = "0.3"
regex = "1"
reqwest = { version = "0.11", default-features = false, features = ["json", "rustls-tls"] }
rusqlite = { version = "0.31", features = ["bundled", "chrono"] }
serde = { version = "1", features = ["derive"] }
serde_json = "1"
sha2 = "0.10"
tokio = { version = "1", features = ["macros", "rt-multi-thread", "sync", "time"] }
wasm-bindgen = "0.2"
web-sys = { version = "0.3", features = ["WorkerGlobalScope"] }
worker = "0.4"
