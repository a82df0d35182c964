[package]
name = "rustboot_hal"
version = "0.1.0"
edition = "2021"
publish = false

[dependencies]
cortex-m = "0.7"
cortex-m-rt = "0.7"
nrf9160-pac = "0.11"
nrf9160-hal = "0.15"
stm32f4xx-hal = { version = "0.13", features = ["stm32f469"] }
