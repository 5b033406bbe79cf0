[package]
name = "memtrack"
version = "0.1.0"
edition = "2021"
publish = false

[dependencies]
hash32 = "=0.3.1"
heapless = "=0.9.3"
lazy_static = "=1.5.1"
libc = "=0.2.190"
lz4_flex = "=0.14.0"
snap = "=1.1.2"
spin = "=0.12.3"
tracing = "=0.1.44"
tracing-core = "=0.1.36"
tracing-subscriber = "=0.3.23"
