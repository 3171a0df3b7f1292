[package]
name = "ross_os"
version = "0.1.0"
edition = "2021"
publish = false

[dependencies]
linked_list_allocator = "0.10"
font8x8 = { version = "0.3", default-features = false }
