[package]
name = "sauron"
version = "0.1.0"
edition = "2021"
publish = false

[dependencies]
proc-macro2 = "=1.0.107"
quote = "=1.0.47"
syn = { version = "=2.0.119", features = ["full"] }
wasm-bindgen = "=0.2.130"
web-sys = { version = "=0.3.107", features = ["Window", "Document", "Element", "Node", "Text", "Comment", "EventTarget", "Event", "KeyboardEvent", "MouseEvent", "HtmlInputElement", "HtmlTextAreaElement", "NodeList", "CharacterData"] }
sauron_vdom = "=0.2.0"
lazy_static = "=1.5.1"
