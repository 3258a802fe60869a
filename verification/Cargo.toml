[package]
name = "pipecrab_adapters"
version = "0.1.0"
edition = "2021"
publish = false

[dependencies]
async-trait = "=0.1.92"
chrono = "=0.4.45"
cpal = "=0.16.0"
encoding_rs = "=0.8.44"
futures = "=0.3.34"
js-sys = "=0.3.107"
llama-cpp-2 = "=0.1.160"
reqwest = { version = "=0.12.28", default-features = false, features = ["json", "rustls-tls", "stream"] }
rtrb = "=0.3.6"
serde = { version = "=1.0.229", features = ["derive"] }
serde_json = "=1.0.154"
tempfile = "=3.27.0"
thiserror = "=2.0.21"
tokio = { version = "=1.54.1", features = ["full"] }
url = "=2.5.8"
uuid = { version = "=1.29.0", features = ["v4"] }
wasm-bindgen = "=0.2.130"
wasm-bindgen-futures = "=0.4.80"
