[package]
name = "grpc_http3"
version = "0.1.0"
edition = "2021"
publish = false

[dependencies]
itertools = "=0.13.0"
rand = "=0.8.8"
ring = "=0.17.14"
quiche = "=0.30.0"
mio = { version = "=0.8.11", features = ["os-poll", "net"] }
docopt = "=1.1.1"
log = "=0.4.35"
slab = "=0.4.12"
flume = "=0.11.1"
url = "=2.5.8"
libc = "=0.2.191"
tokio = { version = "=1.54.1", features = ["rt-multi-thread", "macros", "sync", "net", "io-util", "time", "fs"] }
