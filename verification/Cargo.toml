[package]
name = "pixel_walker"
version = "0.1.0"
edition = "2021"
publish = false

[dependencies]
heapless = "0.8"
postcard = { version = "1", default-features = false }
serde = { version = "1", default-features = false, features = ["derive"] }
cortex-m = "0.7"
cortex-m-rt = "0.7"
tudelft-lm3s6965-pac = "*"
tudelft-arm-qemu-runner = "*"
color-eyre = "*"
tracing-subscriber = "*"
