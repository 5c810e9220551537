[package]
name = "minesweeper"
version = "0.1.0"
edition = "2021"
publish = false

[dependencies]
web-sys = { version = "*", features = ["Window", "Storage", "Document", "Element", "HtmlElement", "HtmlInputElement", "HtmlSelectElement", "KeyboardEvent", "Event", "EventTarget", "Node"] }
wasm-bindgen = "*"
js-sys = "*"
console_error_panic_hook = "*"
