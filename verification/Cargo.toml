[package]
name = "pppoe"
version = "0.1.0"
edition = "2021"
publish = false

[dependencies]
clap = { version = "4", features = ["cargo"] }
erdp = "*"
libc = "0.2"
macaddr = "1"
pretty-hex = "*"
tokio = { version = "1", features = ["rt", "net", "signal", "sync", "macros"] }
tokio-util = "0.7"
