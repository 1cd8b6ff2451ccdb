[package]
name = "tachy_reaccy"
version = "0.1.0"
edition = "2021"
publish = false

[dependencies]
futures = "0.3"
once_cell = "1"
parking_lot = "0.12"
paste = "1"
rustc-hash = "1"
wasm-bindgen = "0.2"
web-sys = { version = "0.3", features = ["CssStyleDeclaration", "Document", "DocumentFragment", "DomTokenList", "Element", "EventTarget", "HtmlElement", "Node", "Text", "Window", "console"] }
