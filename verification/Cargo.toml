[package]
name = "gauzilla"
version = "0.1.0"
edition = "2021"
publish = false

[dependencies]
num-format = "=0.4.4"
bus = "=2.4.1"
three-d = { version = "=0.16.4", features = ["egui-gui"] }
serde = { version = "=1.0.229", features = ["derive"] }
rfd = { version = "=0.17.2", default-features = false, features = ["xdg-portal"] }
wasm_thread = "=0.3.3"
wasm-bindgen = "=0.2.129"
wasm-bindgen-futures = "=0.4.79"
js-sys = "=0.3.106"
web-sys = { version = "=0.3.106", features = ["Blob", "BlobPropertyBag", "Document", "Element", "Headers", "HtmlCanvasElement", "Location", "MessageEvent", "Navigator", "Performance", "ReadableStream", "ReadableStreamDefaultReader", "Request", "RequestCredentials", "RequestInit", "RequestMode", "Response", "Url", "UrlSearchParams", "Window", "Worker", "WorkerOptions", "WorkerType", "console"] }
