[package]
name = "firewall"
version = "0.1.0"
edition = "2021"
publish = false

[dependencies]
aya-ebpf = "=0.1.1"
aya-ebpf-bindings = "=0.1.2"
aya-log-ebpf = "=0.1.0"
network-types = "=0.0.7"
ctrlc = "=3.5.2"
dialoguer = "=0.11.0"
pnet = "=0.35.0"
