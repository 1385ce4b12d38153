[package]
name = "f8s"
version = "0.1.0"
edition = "2021"
publish = false

[dependencies]
bimap = "*"
color-eyre = "*"
eyre = "*"
futures = "*"
k8s-openapi = { version = "*", features = ["latest"] }
kube = "*"
libc = "*"
log = "*"
polyfuse = "=0.4.2"
pretty_env_logger = "*"
tokio = { version = "*", features = ["full"] }
