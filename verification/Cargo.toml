[package]
name = "amt"
version = "0.1.0"
edition = "2021"
publish = false

[dependencies]
ctrlc = "=3.5.2"
getrandom = "=0.4.3"
hmac = "=0.13.0"
libc = "=0.2.191"
mcrx-core = { version = "=0.3.0", features = ["metrics", "raw-packets", "raw-shared-capture"] }
mctx-core = { version = "=0.3.1", features = ["raw-ip", "raw-packets", "raw-route-egress"] }
polling = "=3.11.0"
quinn-udp = "=0.6.3"
serde = { version = "=1.0.229", features = ["derive"] }
serde_json = "=1.0.154"
sha2 = "=0.11.1"
socket2 = "=0.6.5"
toml = "=1.1.8"
