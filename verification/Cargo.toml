[package]
name = "notebook"
version = "0.1.0"
edition = "2021"
publish = false

[dependencies]
url = "=2.5.8"
uuid = { version = "=1.29.0", features = ["v4", "js"] }
reqwest = { version = "=0.13.5", default-features = false, features = ["json"] }
serde = { version = "=1.0.229", features = ["derive"] }
wasm-bindgen = "=0.2.129"
wasm-bindgen-futures = "=0.4.79"
console_error_panic_hook = "=0.1.7"
web-sys = { version = "=0.3.106", features = ["Window", "Document", "Element", "HtmlElement", "HtmlAnchorElement", "HtmlFormElement", "FormData", "Event", "MouseEvent", "EventTarget", "Location", "Node", "NodeList", "DomTokenList"] }
