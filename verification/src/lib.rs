//! The logic of a webview on OpenHarmony.

pub mod color;
pub mod custom_protocol_workaround;
pub mod digits;
pub mod ohos;
pub mod text;
