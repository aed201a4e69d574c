[package]
name = "sauron_vdom"
version = "0.1.0"
edition = "2021"
publish = false

[dependencies]
js-sys = "=0.3.106"
wasm-bindgen = "=0.2.129"
web-sys = { version = "=0.3.106", features = ["Document", "Element", "Event", "EventTarget", "Node", "NodeList", "ShadowRoot", "ShadowRootInit", "ShadowRootMode", "Text", "Window"] }
