[package]
name = "y4p"
version = "0.2.0"
edition = "2021"
publish = false

[dependencies]
percent-encoding = "2"
unicode-width = "0.2"
sha3 = "0.10"
libc = "0.2"
ctrlc = "3"
rusqlite = { version = "*", features = ["bundled"] }
wayland-client = "0.31"
wayland-protocols = { version = "0.32", features = ["client", "staging"] }
