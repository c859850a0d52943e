[package]
name = "arachne"
version = "0.1.0"
edition = "2021"
publish = false

[dependencies]
anyhow = "=1.0.104"
aya = "=0.13.1"
aya-ebpf = "=0.1.1"
futures = "=0.3.34"
ipnet = "=2.12.2"
k8s-openapi = { version = "=0.24.0", features = ["v1_32"] }
kube = { version = "=0.99.0", features = ["runtime"] }
netlink-packet-route = "=0.19.0"
nix = { version = "=0.29.0", features = ["mount", "sched", "time"] }
rtnetlink = "=0.14.1"
serde = { version = "=1.0.229", features = ["derive"] }
serde_json = "=1.0.154"
tokio = { version = "=1.54.1", features = ["macros", "rt-multi-thread", "signal", "time"] }
