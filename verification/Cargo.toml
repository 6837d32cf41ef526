[package]
name = "hypercore-wasm"
version = "0.1.0"
edition = "2021"
publish = false

[dependencies]
hex = "=0.4.3"
hypercore-protocol = "=0.7.2"
hypercore_handshake = "=0.6.0"
hypercore_schema = "=0.2.0"
futures = "=0.3.34"
log = "=0.4.35"
console_log = "=1.1.0"
wasm-bindgen = "=0.2.130"
wasm-bindgen-futures = "=0.4.80"
js-sys = "=0.3.107"
web-sys = { version = "=0.3.107", features = ["Document", "Element", "HtmlElement", "Node", "Window", "WebSocket", "BinaryType", "ErrorEvent", "MessageEvent"] }
