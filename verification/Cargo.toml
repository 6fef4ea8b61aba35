[package]
name = "yawc"
version = "0.1.0"
edition = "2021"
publish = false

[dependencies]
smithay = { version = "=0.7.0", default-features = false, features = ["wayland_frontend", "renderer_gl"] }
smithay-drm-extras = { version = "=0.1.0", default-features = false }
bitflags = "=2.13.2"
knus = "=3.4.1"
knuffel = "=3.2.0"
kdl = "=6.7.1"
png = "=0.18.1"
tracing = "=0.1.44"
tracing-subscriber = { version = "=0.3.23", features = ["env-filter", "fmt"] }
profiling = "=1.0.18"
puffin_http = "=0.17.0"
