[package]
name = "chat_hub"
version = "0.1.0"
edition = "2021"
publish = false

[dependencies]
uuid = { version = "=1.29.0", features = ["v4"] }
serde = { version = "=1.0.229", features = ["derive"] }
serde_json = "=1.0.154"
actix = "=0.13.5"
actix-web = "=4.18.1"
actix-web-actors = "=4.3.1"
yew = { version = "0.21", features = ["csr"] }
gloo-net = "*"
gloo-dialogs = "*"
wasm-bindgen-futures = "0.4"
web-sys = { version = "0.3", features = ["HtmlInputElement"] }
futures = "0.3"
