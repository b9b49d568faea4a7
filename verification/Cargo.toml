[package]
name = "container_hotplug"
version = "0.1.0"
edition = "2021"
publish = false

[dependencies]
anyhow = "*"
async-stream = "*"
aya = "*"
clap = { version = "*", features = ["derive"] }
env_logger = "*"
humantime = "*"
libc = "*"
log = "*"
murmur2 = "*"
rustix = { version = "*", features = ["fs", "mount", "process", "thread", "net", "stdio", "pipe"] }
serde = { version = "*", features = ["derive"] }
serde_json = "*"
tokio = { version = "*", features = ["rt-multi-thread", "macros", "sync", "net", "io-util", "signal", "time"] }
tokio-stream = "*"
udev = "*"
