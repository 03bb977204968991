[package]
name = "munchbox"
version = "0.1.0"
edition = "2021"
publish = false

[dependencies]
uuid = { version = "=1.29.1", features = ["v4", "js"] }
serde = { version = "=1.0.229", features = ["derive"] }
serde_json = "=1.0.154"
yew = { version = "=0.21.0", features = ["csr"] }
gloo-net = "=0.5.0"
gloo-storage = "=0.3.0"
wasm-bindgen-futures = "=0.4.80"
web-sys = { version = "=0.3.107", features = ["Window", "Location", "HtmlInputElement", "HtmlSelectElement", "HtmlTextAreaElement", "Event", "InputEvent", "SubmitEvent", "EventTarget"] }
