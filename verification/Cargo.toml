[package]
name = "stm32_can"
version = "0.1.0"
edition = "2021"
publish = false

[dependencies]
stm32f0xx-hal = { version = "=0.17.1", features = ["stm32f042", "rt"] }
cortex-m = "=0.6.7"
cortex-m-rtic = "=0.5.9"
rtt-target = { version = "=0.2.2", features = ["cortex-m"] }
smart-leds = "=0.3.0"
ws2812-spi = "=0.4.0"
nb = "=1.1.0"
