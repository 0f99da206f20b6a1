[package]
name = "kdeconnect"
version = "0.1.0"
edition = "2021"
publish = false

[dependencies]
lru-cache = "=0.1.2"
uuid = { version = "=1.27.0", features = ["v4"] }
gethostname = "=0.4.3"
md5 = "=0.7.0"
tokio = { version = "=1.53.2", features = ["rt-multi-thread", "net", "io-util", "time", "sync", "macros"] }
tokio-rustls = { version = "=0.23.4", features = ["dangerous_configuration"] }
socket2 = { version = "=0.4.10", features = ["all"] }
rcgen = "=0.11.3"
time = "=0.3.55"
x509-signature = "=0.5.0"

[dev-dependencies]
base64 = "=0.13.1"
serde_json = "=1.0.151"
