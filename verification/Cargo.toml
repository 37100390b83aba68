[package]
name = "netty"
version = "0.1.0"
edition = "2021"
publish = false

[dependencies]
bevy_app = { version = "=0.12.1", default-features = false }
bevy_ecs = { version = "=0.12.1", default-features = false }
bevy_tasks = { version = "=0.12.1", default-features = false }
bincode = "=1.3.3"
bytes = "=1.12.1"
gloo-timers = { version = "=0.3.0", features = ["futures"] }
js-sys = "=0.3.107"
send_wrapper = "=0.6.0"
serde = { version = "=1.0.229", features = ["derive"] }
thiserror = "=1.0.69"
tinyvec = "=1.13.3"
tokio = { version = "=1.54.1", features = ["rt-multi-thread", "net", "io-util", "sync", "time"] }
uuid = { version = "=1.29.0", features = ["v4"] }
wasm-bindgen-futures = "=0.4.80"
web-sys = { version = "=0.3.107", features = ["WebTransport", "WebTransportOptions", "WebTransportBidirectionalStream", "WebTransportReceiveStream", "WebTransportSendStream", "ReadableStreamDefaultReader", "WritableStreamDefaultWriter"] }
wtransport = { version = "=0.1.14", features = ["dangerous-configuration"] }
