[package]
name = "contain"
version = "0.1.0"
edition = "2021"
publish = false

[dependencies]
clap = { version = "4", features = ["derive"] }
libc = "0.2"
libredox = "=0.1.3"
log = "0.4"
redox-log = "=0.1.4"
redox-scheme = "=0.2.4"
redox_event = "=0.4.0"
redox_liner = "=0.5.3"
redox_syscall = "=0.5.4"
redox_users = "=0.4.6"
ron = "=0.8.1"
serde = { version = "1", features = ["derive"] }
termion = "=4.0.6"
toml = "=0.8.23"
