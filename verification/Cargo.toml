[package]
name = "lanta"
version = "0.1.0"
edition = "2021"
publish = false

[dependencies]
error-chain = "=0.12.4"
failure = "=0.1.8"
fern = "=0.5.9"
libc = "=0.2.191"
log = "=0.4.34"
log-panics = "=2.1.0"
time = "=0.1.45"
x11 = "=2.21.0"
xcb = "0.9"
xcb-util = { version = "0.3", features = ["ewmh", "icccm", "keysyms"] }
xdg = "=2.5.2"
