[package]
name = "sev_boot"
version = "0.1.0"
edition = "2021"
publish = false

[dependencies]
align-address = "*"
goblin = "*"
scroll = "*"
sev = "*"
kvm-bindings = "*"
kvm-ioctls = "*"
linux-loader = "*"
vm-memory = { version = "*", features = ["backend-mmap"] }
serde = { version = "1", features = ["derive"] }
thiserror = "*"
