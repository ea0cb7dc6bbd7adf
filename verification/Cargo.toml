[package]
name = "seize"
version = "0.5.1"
edition = "2021"
publish = false

[dependencies]
allocator-api2 = "0.2"
rustix = { version = "1", features = ["thread"] }
cortex-m-rt = "0.7"
cortex-m-semihosting = "0.5"
