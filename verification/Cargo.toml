[package]
name = "cooking_with_wasm"
version = "0.1.0"
edition = "2021"
publish = false

[dependencies]
rand = "0.8"
leptos = { version = "0.6", features = ["csr"] }
wasm-bindgen = "0.2"
web-sys = { version = "0.3", features = ["HtmlElement"] }
gloo-utils = { version = "0.2", features = ["serde"] }
