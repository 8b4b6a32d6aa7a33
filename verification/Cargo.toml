[package]
name = "ebpf-dns-cache"
version = "0.1.0"
edition = "2021"
publish = false

[dependencies]
anyhow = "1"
ctrlc = "3"
flexi_logger = "*"
libbpf-rs = "0.25"
libc = "0.2"
log = "0.4"
ratatui = "0.29"
