[package]
name = "yewchat"
version = "0.1.0"
edition = "2021"
publish = false

[dependencies]
log = "0.4"
web-sys = { version = "0.3", features = ["HtmlInputElement"] }
yew = "0.19"
yew-agent = "0.1"

[dev-dependencies]
serde_json = "1"
