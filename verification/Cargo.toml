[package]
name = "game_of_life"
version = "0.1.0"
edition = "2021"
publish = false

[dependencies]
yew = { version = "0.21", features = ["csr"] }
gloo = { version = "0.11", default-features = false, features = ["timers", "events"] }
wasm-bindgen = "0.2"
web-sys = { version = "0.3", features = ["HtmlInputElement", "Window"] }
