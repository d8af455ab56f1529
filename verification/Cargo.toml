[package]
name = "zaphyl"
version = "1.0.2"
edition = "2021"
publish = false

[dependencies]
async-trait = "0.1"
brotli = { version = "=8.0.4", default-features = false, features = ["std"] }
bytes = "1"
clap = { version = "4", default-features = false, features = ["derive", "std", "help", "usage", "error-context"] }
flate2 = "=1.1.10"
h3 = "0.0.8"
h3-quinn = "0.0.10"
http = "=1.5.0"
http-body-util = "0.1"
hyper = { version = "1", features = ["client", "server", "http1", "http2"] }
hyper-rustls = { version = "0.27", default-features = false, features = ["http1", "http2", "ring", "tls12"] }
hyper-util = { version = "0.1", default-features = false, features = ["client", "client-legacy", "server", "http1", "http2", "tokio"] }
instant-acme = { version = "0.8", default-features = false, features = ["hyper-rustls", "ring", "rcgen"] }
ipnet = "=2.12.2"
mime_guess = "=2.0.5"
percent-encoding = "=2.3.2"
prometheus = { version = "0.14", default-features = false }
quinn = { version = "0.11", default-features = false, features = ["runtime-tokio", "rustls-ring"] }
rustls = { version = "0.23", default-features = false, features = ["ring", "std", "tls12"] }
serde = { version = "1", features = ["derive"] }
thiserror = "2"
tokio = { version = "1", features = ["full"] }
tokio-stream = { version = "0.1", default-features = false }
toml = { version = "=1.1.8", default-features = false, features = ["std", "parse", "serde"] }
wasmtime = { version = "=44.0.3", default-features = false, features = ["component-model", "cranelift", "runtime"] }
wasmtime-wasi = { version = "=44.0.3", default-features = false, features = ["p2"] }
webpki-roots = "1"
x509-parser = "=0.18.1"
zstd = "=0.13.4"

[dev-dependencies]
rcgen = { version = "=0.14.10", default-features = false, features = ["pem", "ring"] }
