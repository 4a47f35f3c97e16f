[package]
name = "rastfetch"
version = "0.1.0"
edition = "2021"
publish = false

[dependencies]
clap = { version = "*", features = ["derive"] }
include_dir = "*"
serde_json = "*"
strip-ansi-escapes = "*"
sysinfo = "*"
termcolor = "*"
tokio = { version = "*", features = ["macros", "rt-multi-thread", "sync"] }
whoami = "*"
