//! The OpenHarmony webview: what it decides, apart from the platform that
//! carries the decisions out.

pub mod callbacks;
pub mod cookies;
pub mod create;
pub mod error;
pub mod headers;
pub mod intercept;
pub mod ipc;
pub mod laws;
pub mod ops;
pub mod platform;
pub mod uri;
pub mod webview;
