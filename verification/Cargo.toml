[package]
name = "qtun"
version = "0.1.0"
edition = "2021"
publish = false

[dependencies]
aes-gcm = "0.10"
md-5 = "0.10"
sha1 = "0.10"
sha2 = "0.10"
hex = "0.4"
base64 = "0.22"
rand = "0.8"
anyhow = "1"
bytes = "1"
thiserror = "1"
tokio = { version = "1", features = ["full"] }
quinn = { version = "0.11", default-features = false, features = ["runtime-tokio", "rustls-ring", "log"] }
rustls = { version = "0.23", default-features = false, features = ["ring", "std", "logging", "tls12"] }
rcgen = { version = "0.13", default-features = false, features = ["crypto", "ring", "pem"] }
dashmap = "6"
parking_lot = "0.12"
tracing = "0.1"
ipnet = "2"
tun2 = { version = "*", features = ["async"] }
structopt = "0.3"
async-trait = "0.1"
axum = "0.7"
tower-http = { version = "0.6", features = ["fs"] }

[dev-dependencies]
prost = "0.13"
