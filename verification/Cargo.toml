[package]
name = "autonice"
version = "0.1.0"
edition = "2021"
publish = false

[dependencies]
anyhow = "=1.0.104"
aya = "=0.13.1"
aya-ebpf = "=0.1.1"
env_logger = "=0.11.11"
libc = "=0.2.191"
log = "=0.4.35"
tokio = { version = "=1.54.1", features = ["macros", "net", "rt-multi-thread", "signal"] }
toml_edit = { version = "=0.22.27", default-features = false, features = ["parse"] }
