[package]
name = "forward_os"
version = "0.1.0"
edition = "2021"
publish = false

[dependencies]
xmas-elf = "0.9"
uefi = "0.28"
linked_list_allocator = "0.10"
