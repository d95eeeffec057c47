[package]
name = "pal"
version = "0.1.0"
edition = "2021"
publish = false

[dependencies]
anyhow = "=1.0.104"
thiserror = "=2.0.21"
inkwell = { version = "=0.11.0", features = ["llvm23-1-no-llvm-linking"] }
