[package]
name = "fos_microkernel"
version = "0.1.0"
edition = "2021"
publish = false

[dependencies]
embedded-graphics = "*"
linked_list_allocator = "*"
