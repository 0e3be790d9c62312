[package]
name = "gratttool"
version = "0.1.0"
edition = "2021"
publish = false

[dependencies]
bluer = { version = "0.17", features = ["bluetoothd"] }
libdbus-sys = { version = "0.2", features = ["vendored"] }
clap = { version = "4", features = ["derive"] }
colored = "2"
futures = "0.3"
hex = "0.4"
libc = "0.2"
rustyline-async = "0.4"
terminal_size = "0.4"
tokio = { version = "1", features = ["full"] }
uuid = "1"
