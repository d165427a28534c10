[package]
name = "xkey"
version = "0.1.0"
edition = "2021"
publish = false

[dependencies]
libc = "=0.2.191"
nginx-sys = { version = "=0.5.0", features = ["vendored"] }
ngx = { version = "=0.5.1", features = ["vendored"] }
