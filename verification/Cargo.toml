[package]
name = "sandbox_runtime"
version = "0.1.0"
edition = "2021"
publish = false

[dependencies]
libc = "0.2"
serde = { version = "1", features = ["derive"] }
serde_json = "1"
userfaultfd = "*"
vmm-sys-util = "*"
