[package]
name = "watch_rs"
version = "0.1.0"
edition = "2021"
publish = false

[dependencies]
heapless = "0.8"
miniz_oxide = "0.8"
embedded-hal = "1"
embedded-hal-bus = "*"
embedded-graphics = "0.8"
critical-section = "1"
libm = "0.2"
bytemuck = "1"
mipidsi = "*"
esp-hal = "*"
esp-println = "*"
esp-backtrace = "*"
esp-alloc = "*"
esp-bootloader-esp-idf = "*"
