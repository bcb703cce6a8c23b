[package]
name = "ja_2026"
version = "0.1.0"
edition = "2021"
publish = false

[dependencies]
avr-device = { version = "0.7", features = ["atmega328p", "rt"] }
embedded-hal = "1"
panic-halt = "1"
ufmt = "0.2"
