[package]
name = "textiler_core"
version = "0.1.0"
edition = "2021"
publish = false

[dependencies]
bigdecimal = "0.4"
cssparser = "*"
heck = "0.5"
indexmap = "2"
regex = "1"
rand = "0.8"
serde = { version = "1", features = ["derive"] }
serde_json = "1"
thiserror = "1"
log = "0.4"
once_cell = "1"
minifier = "0.3"
dark-light = "1"
strum = { version = "0.26", features = ["derive"] }
cfg-if = "1"
static_assertions = "1"
yew = { version = "0.21", features = ["csr"] }
stylist = { version = "0.13", features = ["yew_integration"] }
gloo = "0.11"
wasm-bindgen = "0.2"
web-sys = { version = "0.3", features = ["HtmlElement", "HtmlStyleElement", "Node", "NodeList", "Document", "Element", "MouseEvent", "HtmlHeadElement"] }
