[package]
name = "summy"
version = "0.1.0"
edition = "2021"
publish = false

[dependencies]
lru = "=0.19.0"
arraydeque = "=0.5.1"
anyhow = "=1.0.104"
genai = "=0.7.1"
readability = { version = "=0.3.0", default-features = false }
serde_json = "=1.0.154"
url = "=2.5.8"
wasm-bindgen = "=0.2.129"
web-sys = { version = "=0.3.106", features = ["console"] }
console_error_panic_hook = "=0.1.7"
