[package]
name = "ohos_webview"
version = "0.1.0"
edition = "2021"
publish = false

[dependencies]
cookie = "=0.18.2"
dpi = "=0.1.2"
http = "=1.5.0"
log = "=0.4.35"
openharmony-ability = "=1.0.0-beta.5"
openharmony-ability-plugin-webview = "=1.0.0-beta.5"
raw-window-handle = { version = "=0.6.2", features = ["std"] }
tokio = { version = "=1.54.1", features = ["rt"] }
