[package]
name = "h753zi_telemetry"
version = "0.1.0"
edition = "2021"
publish = false

[dependencies]
embassy-executor = { version = "=0.10.0", features = ["platform-std", "executor-thread"] }
embassy-net = { version = "=0.9.1", features = ["auto-icmp-echo-reply", "tcp", "udp", "dns", "dhcpv4", "medium-ethernet", "proto-ipv4"] }
embassy-stm32 = { version = "=0.6.0", features = ["stm32h753zi", "time"] }
embassy-sync = "=0.8.0"
embassy-time = { version = "=0.5.1", features = ["tick-hz-32_768"] }
embedded-io-async = "=0.7.0"
heapless = "=0.9.3"
libm = "=0.2.16"
nng-core = "=0.3.0"
static_cell = "=2.1.1"
tokio = { version = "=1.54.1", features = ["macros", "rt-multi-thread", "time"] }
uom = "=0.38.0"
