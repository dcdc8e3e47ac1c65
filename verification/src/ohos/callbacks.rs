//! What the platform is answered when it asks about a webview.

use super::cookies;
use vstd::prelude::*;

verus! {

/// What the user of a webview answers to a page that asks for a new window.
#[derive(Debug, Clone, Copy, PartialEq, Eq, Structural)]
pub enum NewWindowResponse {
    /// The platform opens the window.
    Allow,
    /// The user opens a window of their own.
    Create,
    /// No window is opened.
    Deny,
}

impl NewWindowResponse {
    /// Whether the platform is to open a window. Where the user opens one, the
    /// platform must not open a second.
    pub fn opens_window(self) -> (opens: bool)
        ensures
            opens == (self == NewWindowResponse::Allow),
    {
        match self {
            NewWindowResponse::Allow => true,
            NewWindowResponse::Create => false,
            NewWindowResponse::Deny => false,
        }
    }
}

/// Whether the platform is to block a navigation that its user allows or not.
pub fn blocks_navigation(allowed: bool) -> (blocks: bool)
    ensures
        blocks == !allowed,
{
    !allowed
}

/// The path that the user is asked about when a download starts: the empty one
/// where the platform names none.
pub fn download_path(temp_path: Option<String>) -> (path: String)
    ensures
        path@ == match cookies::optional_text(temp_path) {
            Some(named) => named,
            None => Seq::empty(),
        },
{
    match temp_path {
        Some(path) => path,
        None => String::new(),
    }
}

/// How a custom protocol is treated by the platform.
#[derive(Debug, Clone, Copy, PartialEq, Eq, Structural)]
pub struct ProtocolOptions {
    pub standard: bool,
    pub local: bool,
    pub display_isolated: bool,
    pub secure: bool,
    pub cors_enabled: bool,
    pub csp_bypassing: bool,
    pub fetch_enabled: bool,
    pub code_cache_enabled: bool,
}

/// The options that custom protocols are declared with: they can be fetched,
/// bypass CSP, allow CORS and use the code cache.
pub fn custom_protocol_options() -> (options: ProtocolOptions)
    ensures
        options == (ProtocolOptions {
            standard: true,
            local: false,
            display_isolated: false,
            secure: false,
            cors_enabled: true,
            csp_bypassing: true,
            fetch_enabled: true,
            code_cache_enabled: true,
        }),
{
    ProtocolOptions {
        standard: true,
        local: false,
        display_isolated: false,
        secure: false,
        cors_enabled: true,
        csp_bypassing: true,
        fetch_enabled: true,
        code_cache_enabled: true,
    }
}

} // verus!
