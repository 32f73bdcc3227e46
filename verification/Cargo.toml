[package]
name = "kernel_core"
version = "0.1.0"
edition = "2021"
publish = false

[dependencies]
buddy_system_allocator = "*"
lazy_static = "*"
riscv = "0.10"
spin = "*"
