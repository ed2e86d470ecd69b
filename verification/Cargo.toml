[package]
name = "cbf_node"
version = "0.1.0"
edition = "2021"
publish = false

[dependencies]
bitcoin = "=0.27.1"
thiserror = "=1.0.69"
