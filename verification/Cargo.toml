[package]
name = "bootloader"
version = "0.1.0"
edition = "2021"
publish = false

[dependencies]
aarch64-cpu = "*"
goblin = "*"
tock-registers = "*"
uefi = { version = "*", features = ["alloc"] }
