[package]
name = "fediq"
version = "0.1.0"
edition = "2021"
publish = false

[dependencies]
rand = "=0.10.3"
base64 = "=0.23.1"
ulid = "=3.0.0"
serde = { version = "=1.0.229", features = ["derive"] }
serde_json = "=1.0.151"
time = { version = "=0.3.55", features = ["formatting", "parsing"] }
tokio = { version = "=1.53.2", features = ["macros", "rt-multi-thread", "signal"] }
reqwest = { version = "=0.13.5", default-features = false, features = ["json", "rustls"] }
reqwest-websocket = "=0.6.0"
futures-util = "=0.3.34"
stopper = "=0.2.8"
envy = "=0.4.2"
eyre = "=0.6.14"
kube = { version = "=3.1.0", default-features = false, features = ["client", "rustls-tls"] }
k8s-openapi = { version = "=0.27.1", features = ["latest"] }
