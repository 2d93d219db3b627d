[package]
name = "doit"
version = "0.1.0"
edition = "2021"
publish = false

[dependencies]
clap = { version = "4", features = ["derive"] }
libc = "0.2"
log = { version = "0.4", features = ["std"] }
rpassword = "7"
serde = { version = "1", features = ["derive"] }
serde_json = "1"
sha-crypt = "*"
syslog = "7"
users = "0.11"
yescrypt = "*"
