[package]
name = "intspell"
version = "0.1.0"
edition = "2021"
publish = false

[dependencies]
axum = "*"
chrono = "*"
log = "*"
pretty_env_logger = "*"
tokio = { version = "*", features = ["macros", "net", "rt-multi-thread"] }
tower-http = { version = "*", features = ["cors"] }
wasm-bindgen = "*"
web-sys = { version = "*", features = ["EventTarget", "HtmlInputElement", "InputEvent"] }
yew = { version = "*", features = ["csr"] }
