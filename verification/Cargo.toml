[package]
name = "open_kernel"
version = "0.1.0"
edition = "2021"
publish = false

[dependencies]
x86_64 = { version = "0.15", default-features = false, features = ["instructions"] }
xmas-elf = "0.9"
lazy_static = "1.4"
spin = "0.9"
pic8259 = "0.11"
uart_16550 = "0.3"
linked_list_allocator = "0.10"
uefi = "0.25"
uefi-services = { version = "0.22", default-features = false }
