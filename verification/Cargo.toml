[package]
name = "tuic_server"
version = "1.0.0"
edition = "2021"
publish = false

[dependencies]
blake3 = "=1.8.7"
humantime = "=2.4.0"
rustls-pemfile = "=2.2.0"
uuid = { version = "=1.27.0", features = ["v4", "serde"] }
tokio = { version = "=1.53.2", features = ["full"] }
quinn = { version = "=0.11.12", default-features = false, features = ["runtime-tokio", "rustls-ring", "log"] }
rustls = { version = "=0.23.45", default-features = false, features = ["ring", "std", "logging"] }
rcgen = { version = "=0.14.10", default-features = false, features = ["crypto", "pem", "ring"] }
lexopt = "=0.3.2"
notify = "*"
serde = { version = "=1.0.229", features = ["derive"] }
serde_json = "=1.0.151"
toml = "=1.1.7"
socket2 = "=0.6.5"
axum = "*"
axum-extra = { version = "*", features = ["typed-header"] }
