[package]
name = "velum"
version = "0.1.0"
edition = "2021"
publish = false

[dependencies]
ring = "=0.17.14"
subtle = "=2.6.1"
serde = { version = "=1.0.229", features = ["derive"] }
serde_json = "=1.0.154"
smoltcp = "=0.12.0"
toml = "=0.8.23"
tokio = { version = "1", features = ["rt-multi-thread", "macros", "net", "io-util", "io-std", "time", "sync", "signal", "fs"] }
quinn = { version = "0.11", default-features = false, features = ["runtime-tokio", "rustls-ring"] }
rustls = { version = "0.23", default-features = false, features = ["ring", "std", "tls12"] }
tokio-rustls = { version = "0.26", default-features = false, features = ["ring", "tls12"] }
x509-parser = "0.16"
rcgen = { version = "0.14", default-features = false, features = ["crypto", "pem", "ring"] }
qrcode = { version = "0.14", default-features = false }
getrandom = "0.3"
reqwest = { version = "0.12", default-features = false, features = ["rustls-tls"] }
