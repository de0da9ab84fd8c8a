[package]
name = "medea_rtc"
version = "0.1.0"
edition = "2021"
publish = false

[dependencies]
actix = { version = "=0.13.5", default-features = false }
actix-codec = "=0.5.4"
actix-rt = "2"
async-trait = "=0.1.92"
awc = { version = "=3.11.0", default-features = false }
bytes = "=1.12.1"
clap = { version = "4", default-features = false, features = ["std", "help", "usage", "error-context"] }
futures = "=0.3.34"
medea-client-api-proto = { version = "=0.6.1", features = ["client"] }
medea-control-api-proto = { version = "=0.12.1", default-features = false, features = ["client", "grpc"] }
serde_json = "=1.0.154"
tokio = { version = "1", features = ["full"] }
tonic = "0.12"
webrtc = "=0.9.0"
