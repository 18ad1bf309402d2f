[package]
name = "nbam"
version = "0.1.0"
edition = "2021"
publish = false

[dependencies]
axum = "*"
axum-server = { version = "*", features = ["tls-rustls"] }
clap = { version = "*", features = ["derive", "env"] }
clap-verbosity-flag = "*"
color-eyre = "*"
futures = "*"
json-patch = "*"
k8s-openapi = { version = "=0.27.1", features = ["latest"] }
kube = { version = "=3.1.0", features = ["runtime", "admission"] }
log = "*"
serde_json = "*"
tokio = { version = "*", features = ["macros", "rt-multi-thread"] }
tracing = "*"
tracing-subscriber = "*"
