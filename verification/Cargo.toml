[package]
name = "winc"
version = "0.1.0"
edition = "2021"
publish = false

[dependencies]
alloc-cortex-m = "=0.4.4"
atsamd-hal = { version = "=0.15.1", features = ["samd51j-rt"] }
cortex-m = "=0.7.10"
cortex-m-rt = "=0.7.7"
cortex-m-semihosting = "=0.5.0"
panic-semihosting = "=0.6.0"
