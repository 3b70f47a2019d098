[package]
name = "kubectl-ditto"
version = "0.2.0"
edition = "2021"
publish = false

[dependencies]
anyhow = "=1.0.104"
clap = { version = "=4.6.7", features = ["derive"] }
console = "=0.16.6"
dialoguer = "=0.12.0"
http = "=1.5.0"
indexmap = "=2.14.2"
# Not called here: kube builds on it and leaves it to the program to pick the version of Kubernetes.
k8s-openapi = { version = "=0.29.0", features = ["latest"] }
kube = "=5.0.0"
openapiv3 = "=2.2.0"
serde = { version = "=1.0.229", features = ["derive"] }
# A number is read as the one that its text was written for.
serde_json = { version = "=1.0.154", features = ["float_roundtrip"] }
tokio = { version = "=1.54.1", features = ["macros", "rt-multi-thread"] }
